//! The temperature chart: which sensors it plots, in which colour, and the
//! text of its legend.
use vstd::prelude::*;
use vstd::string::{StrSliceExecFns, StringExecFns};

verus! {

broadcast use vstd::string::group_string_axioms;

/// Longest legend label, in bytes.
pub const MAX_LEGEND_LEN: usize = 22;

/// Labels longer than [`MAX_LEGEND_LEN`] bytes (in UTF-8) keep their first 21 characters
/// followed by an ellipsis.
pub open spec fn spec_truncate_label(label: &str) -> Seq<char> {
    if label.len() > MAX_LEGEND_LEN {
        let keep = if label@.len() < 21 {
            label@.len()
        } else {
            21
        };
        label@.take(keep as int).push('…')
    } else {
        label@
    }
}

pub fn truncate_label(label: &str) -> (r: String)
    ensures
        r@ == spec_truncate_label(label),
{
    proof {
        reveal_strlit("…");
    }
    if label.len() > MAX_LEGEND_LEN {
        let n = label.unicode_len();
        let keep = if n < 21 {
            n
        } else {
            21
        };
        let mut s = String::from_str(label.substring_char(0, keep));
        s.append("…");
        assert("…"@ =~= seq!['…']);
        assert(s@ =~= label@.take(keep as int).push('…'));
        s
    } else {
        String::from_str(label)
    }
}

/// The texts of a list of labels, as a set.
pub open spec fn texts(labels: Seq<String>) -> Set<Seq<char>> {
    Set::new(|l: Seq<char>| exists|i: int| 0 <= i < labels.len() && #[trigger] labels[i]@ == l)
}

/// Whether `label` is among `labels`.
pub fn contains_text(labels: &Vec<String>, label: &String) -> (r: bool)
    ensures
        r == texts(labels@).contains(label@),
{
    let mut i: usize = 0;
    while i < labels.len()
        invariant
            i <= labels@.len(),
            forall|j: int| 0 <= j < i ==> #[trigger] labels@[j]@ != label@,
        decreases labels@.len() - i,
    {
        if labels[i] == *label {
            assert(labels@[i as int]@ == label@);
            return true;
        }
        i = i + 1;
    }
    false
}

/// The sensors the chart plots, by label. An empty selection stands for
/// "not chosen yet" and is filled with every sensor at the next reading.
#[derive(Debug, Clone)]
pub struct SensorSelection {
    pub enabled: Vec<String>,
}

impl View for SensorSelection {
    type V = Set<Seq<char>>;

    open spec fn view(&self) -> Set<Seq<char>> {
        texts(self.enabled@)
    }
}

/// The selection after each `(label, checked)` toggle in turn.
pub open spec fn toggled(enabled: Set<Seq<char>>, toggles: Seq<(String, bool)>) -> Set<Seq<char>>
    decreases toggles.len(),
{
    if toggles.len() == 0 {
        enabled
    } else {
        let before = toggled(enabled, toggles.drop_last());
        let (label, checked) = toggles.last();
        if checked {
            before.insert(label@)
        } else {
            before.remove(label@)
        }
    }
}

/// The selection brought in line with the sensors `labels` of the latest
/// reading: an empty selection takes them all, any other keeps those present.
pub open spec fn synced(enabled: Set<Seq<char>>, labels: Seq<String>) -> Set<Seq<char>> {
    if enabled.is_empty() {
        texts(labels)
    } else {
        enabled.intersect(texts(labels))
    }
}

/// The selection after the user's checkbox changes; where there were some
/// and they left nothing enabled, every available sensor is enabled.
pub open spec fn after_toggles(
    enabled: Set<Seq<char>>,
    toggles: Seq<(String, bool)>,
    available: Seq<String>,
) -> Set<Seq<char>> {
    if toggles.len() > 0 && toggled(enabled, toggles).is_empty() {
        texts(available)
    } else {
        toggled(enabled, toggles)
    }
}

/// After a reading, the chart never plots a sensor that the reading lacks.
pub proof fn lemma_synced_within_reading(enabled: Set<Seq<char>>, labels: Seq<String>)
    ensures
        synced(enabled, labels).subset_of(texts(labels)),
{
}

/// Once the user has changed a checkbox, some sensor stays enabled whenever
/// any is available.
pub proof fn lemma_toggles_leave_some_enabled(
    enabled: Set<Seq<char>>,
    toggles: Seq<(String, bool)>,
    available: Seq<String>,
)
    requires
        toggles.len() > 0,
        available.len() > 0,
    ensures
        !after_toggles(enabled, toggles, available).is_empty(),
{
    if toggled(enabled, toggles).is_empty() {
        assert(texts(available).contains(available[0]@));
    }
}

/// The labels of `labels` that are enabled, in their order, repeats kept.
pub open spec fn plotted(labels: Seq<String>, enabled: Set<Seq<char>>) -> Seq<Seq<char>>
    decreases labels.len(),
{
    if labels.len() == 0 {
        Seq::empty()
    } else {
        let rest = plotted(labels.drop_last(), enabled);
        if enabled.contains(labels.last()@) {
            rest.push(labels.last()@)
        } else {
            rest
        }
    }
}

/// Line colours of the chart, as RGB, taken in turn.
pub open spec fn line_palette() -> Seq<(u8, u8, u8)> {
    seq![
        (244u8, 67u8, 54u8),
        (255u8, 152u8, 0u8),
        (255u8, 235u8, 59u8),
        (76u8, 175u8, 80u8),
        (33u8, 150u8, 243u8),
        (156u8, 39u8, 176u8),
        (0u8, 188u8, 212u8),
        (233u8, 30u8, 99u8),
        (96u8, 125u8, 139u8),
        (121u8, 85u8, 72u8),
    ]
}

/// The colour of the `index`-th plotted sensor: the palette, repeated.
pub fn line_color(index: usize) -> (r: (u8, u8, u8))
    ensures
        r == line_palette()[(index % 10) as int],
{
    let palette: [(u8, u8, u8); 10] = [
        (244, 67, 54),
        (255, 152, 0),
        (255, 235, 59),
        (76, 175, 80),
        (33, 150, 243),
        (156, 39, 176),
        (0, 188, 212),
        (233, 30, 99),
        (96, 125, 139),
        (121, 85, 72),
    ];
    assert(palette@ == line_palette());
    palette[index % 10]
}

impl SensorSelection {
    /// No sensor chosen yet.
    pub fn new() -> (r: Self)
        ensures
            r@ == Set::<Seq<char>>::empty(),
    {
        SensorSelection { enabled: Vec::new() }
    }

    /// Brings the selection in line with the sensors of the latest reading:
    /// an empty selection takes them all, any other keeps only those present.
    pub fn sync(&mut self, labels: &Vec<String>)
        ensures
            final(self)@ == synced(old(self)@, labels@),
    {
        if self.enabled.len() == 0 {
            assert(old(self)@ =~= Set::<Seq<char>>::empty());
            self.enabled = labels.clone();
            assert(self@ =~= texts(labels@));
        } else {
            assert(old(self)@.contains(old(self).enabled@[0]@));
            let mut kept: Vec<String> = Vec::new();
            let mut i: usize = 0;
            while i < self.enabled.len()
                invariant
                    i <= self.enabled@.len(),
                    self.enabled@ == old(self).enabled@,
                    texts(kept@) == texts(self.enabled@.take(i as int)).intersect(texts(labels@)),
                decreases self.enabled@.len() - i,
            {
                let keep = contains_text(labels, &self.enabled[i]);
                let ghost prefix = self.enabled@.take(i as int);
                assert(self.enabled@.take(i as int + 1) == prefix.push(self.enabled@[i as int]));
                assert(texts(prefix.push(self.enabled@[i as int])) =~= texts(prefix).insert(self.enabled@[i as int]@)) by {
                    assert(prefix.push(self.enabled@[i as int])[i as int] == self.enabled@[i as int]);
                    assert forall|l: Seq<char>| #[trigger] texts(prefix).contains(l) implies texts(prefix.push(self.enabled@[i as int])).contains(l) by {
                        let j = choose|j: int| 0 <= j < prefix.len() && #[trigger] prefix[j]@ == l;
                        assert(prefix.push(self.enabled@[i as int])[j] == prefix[j]);
                    }
                }
                if keep {
                    let ghost before = kept@;
                    kept.push(self.enabled[i].clone());
                    assert(texts(kept@) =~= texts(before).insert(self.enabled@[i as int]@)) by {
                        assert(kept@[before.len() as int] == self.enabled@[i as int]);
                        assert forall|l: Seq<char>| #[trigger] texts(before).contains(l) implies texts(kept@).contains(l) by {
                            let j = choose|j: int| 0 <= j < before.len() && #[trigger] before[j]@ == l;
                            assert(kept@[j] == before[j]);
                        }
                    }
                }
                assert(texts(kept@) =~= texts(self.enabled@.take(i as int + 1)).intersect(texts(labels@)));
                i = i + 1;
            }
            assert(self.enabled@.take(i as int) == self.enabled@);
            self.enabled = kept;
        }
    }

    /// Applies the user's checkbox changes in order; where there were some and
    /// nothing is left enabled, every available sensor is enabled again.
    pub fn apply_toggles(&mut self, toggles: &Vec<(String, bool)>, available: &Vec<String>)
        ensures
            final(self)@ == after_toggles(old(self)@, toggles@, available@),
    {
        let mut i: usize = 0;
        while i < toggles.len()
            invariant
                i <= toggles@.len(),
                self@ == toggled(old(self)@, toggles@.take(i as int)),
            decreases toggles@.len() - i,
        {
            let (label, checked) = &toggles[i];
            assert(toggles@.take(i as int + 1).drop_last() == toggles@.take(i as int));
            assert(toggles@.take(i as int + 1).last() == toggles@[i as int]);
            if *checked {
                self.enable(label);
            } else {
                self.disable(label);
            }
            i = i + 1;
        }
        assert(toggles@.take(i as int) == toggles@);
        if toggles.len() > 0 && self.enabled.len() == 0 {
            self.enabled = available.clone();
        } else if toggles.len() > 0 {
            assert(self@.contains(self.enabled@[0]@));
        }
    }

    /// Adds `label` to the selection.
    fn enable(&mut self, label: &String)
        ensures
            final(self)@ == old(self)@.insert(label@),
    {
        let ghost before = self.enabled@;
        self.enabled.push(label.clone());
        assert(self@ =~= texts(before).insert(label@)) by {
            assert(self.enabled@[before.len() as int]@ == label@);
            assert forall|l: Seq<char>| #[trigger] texts(before).contains(l) implies self@.contains(l) by {
                let j = choose|j: int| 0 <= j < before.len() && #[trigger] before[j]@ == l;
                assert(self.enabled@[j] == before[j]);
            }
        }
    }

    /// Removes every copy of `label` from the selection.
    fn disable(&mut self, label: &String)
        ensures
            final(self)@ == old(self)@.remove(label@),
    {
        let mut kept: Vec<String> = Vec::new();
        let mut i: usize = 0;
        while i < self.enabled.len()
            invariant
                i <= self.enabled@.len(),
                self.enabled@ == old(self).enabled@,
                texts(kept@) == texts(self.enabled@.take(i as int)).remove(label@),
            decreases self.enabled@.len() - i,
        {
            let ghost prefix = self.enabled@.take(i as int);
            let ghost item = self.enabled@[i as int];
            assert(self.enabled@.take(i as int + 1) == prefix.push(item));
            assert(texts(prefix.push(item)) =~= texts(prefix).insert(item@)) by {
                assert(prefix.push(item)[i as int] == item);
                assert forall|l: Seq<char>| #[trigger] texts(prefix).contains(l) implies texts(prefix.push(item)).contains(l) by {
                    let j = choose|j: int| 0 <= j < prefix.len() && #[trigger] prefix[j]@ == l;
                    assert(prefix.push(item)[j] == prefix[j]);
                }
            }
            if self.enabled[i] != *label {
                let ghost before = kept@;
                kept.push(self.enabled[i].clone());
                assert(texts(kept@) =~= texts(before).insert(item@)) by {
                    assert(kept@[before.len() as int] == item);
                    assert forall|l: Seq<char>| #[trigger] texts(before).contains(l) implies texts(kept@).contains(l) by {
                        let j = choose|j: int| 0 <= j < before.len() && #[trigger] before[j]@ == l;
                        assert(kept@[j] == before[j]);
                    }
                }
            }
            assert(texts(kept@) =~= texts(self.enabled@.take(i as int + 1)).remove(label@));
            i = i + 1;
        }
        assert(self.enabled@.take(i as int) == self.enabled@);
        self.enabled = kept;
    }

    /// The labels of the latest reading that the chart plots, in the
    /// reading's order; the `k`-th gets [`line_color`]`(k)`.
    pub fn plotted_labels(&self, labels: &Vec<String>) -> (r: Vec<String>)
        ensures
            r@.len() == plotted(labels@, self@).len(),
            forall|k: int| 0 <= k < r@.len() ==> #[trigger] r@[k]@ == plotted(labels@, self@)[k],
    {
        let mut out: Vec<String> = Vec::new();
        let mut i: usize = 0;
        while i < labels.len()
            invariant
                i <= labels@.len(),
                out@.len() == plotted(labels@.take(i as int), self@).len(),
                forall|k: int| 0 <= k < out@.len() ==> #[trigger] out@[k]@ == plotted(labels@.take(i as int), self@)[k],
            decreases labels@.len() - i,
        {
            assert(labels@.take(i as int + 1).drop_last() == labels@.take(i as int));
            assert(labels@.take(i as int + 1).last() == labels@[i as int]);
            if contains_text(&self.enabled, &labels[i]) {
                out.push(labels[i].clone());
            }
            i = i + 1;
        }
        assert(labels@.take(i as int) == labels@);
        out
    }
}

} // verus!
