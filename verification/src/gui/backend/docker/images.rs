//! What the images panel shows of each image.
use vstd::prelude::*;
use vstd::string::{StrSliceExecFns, StringExecFns, is_ascii};

use crate::text::{decimal, push_decimal};

verus! {

broadcast use vstd::string::group_string_axioms;

/// The images panel.
pub struct ImagesPanel;

impl ImagesPanel {
    pub fn new() -> (r: Self) {
        ImagesPanel
    }
}

pub open spec fn sha_prefix() -> Seq<char> {
    "sha256:"@
}

/// The first twelve characters of an image ID, after dropping a `sha256:` prefix;
/// IDs shorter than twelve characters are shown whole.
pub open spec fn spec_short_image_id(id: Seq<char>) -> Seq<char> {
    if id.len() >= 12 {
        let rest = if id.take(7) == sha_prefix() {
            id.skip(7)
        } else {
            id
        };
        if rest.len() >= 12 {
            rest.take(12)
        } else {
            rest
        }
    } else {
        id
    }
}

/// Short form of an image ID (IDs are ASCII hex digests).
pub fn short_image_id(id: &str) -> (r: &str)
    requires
        is_ascii(id),
    ensures
        r@ == spec_short_image_id(id@),
{
    proof {
        reveal_strlit("sha256:");
    }
    let n = id.unicode_len();
    if n < 12 {
        return id;
    }
    let head = id.substring_char(0, 7);
    let rest = if crate::text::same_text(head, "sha256:") {
        id.substring_char(7, n)
    } else {
        id
    };
    proof {
        assert(id@.take(7) =~= head@);
        if head@ == sha_prefix() {
            assert(rest@ =~= id@.skip(7));
        }
    }
    let m = rest.unicode_len();
    if m >= 12 {
        let short = rest.substring_char(0, 12);
        assert(short@ =~= rest@.take(12));
        short
    } else {
        rest
    }
}

/// Position of the last `:` in `s`.
pub open spec fn last_colon(s: Seq<char>) -> Option<int> {
    if exists|i: int| 0 <= i < s.len() && s[i] == ':' {
        Some(
            choose|i: int|
                0 <= i < s.len() && s[i] == ':' && forall|j: int| i < j < s.len() ==> s[j] != ':',
        )
    } else {
        None
    }
}

pub open spec fn none_label() -> Seq<char> {
    "<none>"@
}

/// Repository and tag of the first `repository:tag` of an image, split at the last
/// colon; `<none>` for what is missing.
pub open spec fn spec_repo_and_tag(tags: Seq<String>) -> (Seq<char>, Seq<char>) {
    if tags.len() == 0 {
        (none_label(), none_label())
    } else {
        let first = tags[0]@;
        match last_colon(first) {
            Some(i) => (first.take(i), first.skip(i + 1)),
            None => (first, none_label()),
        }
    }
}

pub fn repo_and_tag(tags: &Vec<String>) -> (r: (String, String))
    ensures
        (r.0@, r.1@) == spec_repo_and_tag(tags@),
{
    if tags.len() == 0 {
        return (String::from_str("<none>"), String::from_str("<none>"));
    }
    let first = tags[0].as_str();
    let n = first.unicode_len();
    let mut i = n;
    while i > 0 && first.get_char(i - 1) != ':'
        invariant
            i <= n,
            n == first@.len(),
            forall|j: int| i <= j < n ==> first@[j] != ':',
        decreases i,
    {
        i = i - 1;
    }
    if i == 0 {
        proof {
            assert(last_colon(first@) is None);
        }
        (String::from_str(first), String::from_str("<none>"))
    } else {
        let at = i - 1;
        proof {
            assert(first@[at as int] == ':');
            let w = last_colon(first@)->0;
            assert(0 <= w < first@.len() && first@[w] == ':');
            if w < at {
                assert(first@[at as int] != ':');
            }
            assert(last_colon(first@) == Some(at as int));
        }
        let repo = first.substring_char(0, at);
        let tag = first.substring_char(at + 1, n);
        proof {
            assert(repo@ =~= first@.take(at as int));
            assert(tag@ =~= first@.skip(at + 1));
        }
        (String::from_str(repo), String::from_str(tag))
    }
}

/// How long ago a creation time (seconds since the Unix epoch) was, seen at `now`.
pub open spec fn spec_format_created(timestamp: int, now: int) -> Seq<char> {
    if timestamp == 0 {
        "unknown"@
    } else {
        let diff = now - timestamp;
        if diff < 0 {
            "in the future"@
        } else {
            let seconds = diff as nat;
            let minutes = seconds / 60;
            let hours = minutes / 60;
            let days = hours / 24;
            if days > 365 {
                decimal(days / 365) + " years ago"@
            } else if days > 30 {
                decimal(days / 30) + " months ago"@
            } else if days > 0 {
                decimal(days) + " days ago"@
            } else if hours > 0 {
                decimal(hours) + " hours ago"@
            } else if minutes > 0 {
                decimal(minutes) + " minutes ago"@
            } else {
                decimal(seconds) + " seconds ago"@
            }
        }
    }
}

/// Formats a creation time relative to `now` (both in seconds since the Unix epoch).
pub fn format_created(timestamp: i64, now: i64) -> (r: String)
    requires
        timestamp != 0 ==> i64::MIN <= now - timestamp <= i64::MAX,
    ensures
        r@ == spec_format_created(timestamp as int, now as int),
{
    if timestamp == 0 {
        return String::from_str("unknown");
    }
    let diff = now - timestamp;
    if diff < 0 {
        return String::from_str("in the future");
    }
    let seconds = diff as u64;
    let minutes = seconds / 60;
    let hours = minutes / 60;
    let days = hours / 24;
    let mut out = String::new();
    if days > 365 {
        push_decimal(&mut out, days / 365);
        out.append(" years ago");
    } else if days > 30 {
        push_decimal(&mut out, days / 30);
        out.append(" months ago");
    } else if days > 0 {
        push_decimal(&mut out, days);
        out.append(" days ago");
    } else if hours > 0 {
        push_decimal(&mut out, hours);
        out.append(" hours ago");
    } else if minutes > 0 {
        push_decimal(&mut out, minutes);
        out.append(" minutes ago");
    } else {
        push_decimal(&mut out, seconds);
        out.append(" seconds ago");
    }
    out
}

} // verus!
