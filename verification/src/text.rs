//! Decimal rendering of integers into strings, and text comparison.
use vstd::prelude::*;
use vstd::string::{StrSliceExecFns, StringExecFns};

verus! {

broadcast use vstd::string::group_string_axioms;

pub open spec fn digit_char(d: nat) -> char {
    (48 + d) as char
}

/// The decimal digits of `n`, most significant first, without leading zeros.
pub open spec fn decimal(n: nat) -> Seq<char>
    decreases n,
{
    if n < 10 {
        seq![digit_char(n)]
    } else {
        decimal(n / 10).push(digit_char(n % 10))
    }
}

/// `n` in decimal, left-padded with zeros to at least `width` characters.
pub open spec fn padded(n: nat, width: nat) -> Seq<char> {
    let digits = decimal(n);
    if digits.len() < width {
        Seq::new((width - digits.len()) as nat, |i: int| '0') + digits
    } else {
        digits
    }
}

/// The one-character string of digit `d`.
fn digit_str(d: u64) -> (s: &'static str)
    requires
        d < 10,
    ensures
        s@ == seq![digit_char(d as nat)],
{
    proof {
        reveal_strlit("0");
        reveal_strlit("1");
        reveal_strlit("2");
        reveal_strlit("3");
        reveal_strlit("4");
        reveal_strlit("5");
        reveal_strlit("6");
        reveal_strlit("7");
        reveal_strlit("8");
        reveal_strlit("9");
    }
    let s = if d == 0 {
        "0"
    } else if d == 1 {
        "1"
    } else if d == 2 {
        "2"
    } else if d == 3 {
        "3"
    } else if d == 4 {
        "4"
    } else if d == 5 {
        "5"
    } else if d == 6 {
        "6"
    } else if d == 7 {
        "7"
    } else if d == 8 {
        "8"
    } else {
        "9"
    };
    assert(s@ =~= seq![digit_char(d as nat)]);
    s
}

/// Appends `n` in decimal.
pub fn push_decimal(out: &mut String, n: u64)
    ensures
        final(out)@ == old(out)@ + decimal(n as nat),
    decreases n,
{
    if n >= 10 {
        push_decimal(out, n / 10);
    }
    out.append(digit_str(n % 10));
    proof {
        if n >= 10 {
            assert(decimal(n as nat) == decimal((n / 10) as nat).push(digit_char((n % 10) as nat)));
        }
        assert(final(out)@ =~= old(out)@ + decimal(n as nat));
    }
}

/// Number of decimal digits of `n`.
pub fn decimal_len(n: u64) -> (r: usize)
    ensures
        r == decimal(n as nat).len(),
        1 <= r <= 20,
    decreases n,
{
    if n < 10 {
        1
    } else {
        let r = decimal_len(n / 10) + 1;
        proof {
            assert(decimal(n as nat) == decimal((n / 10) as nat).push(digit_char((n % 10) as nat)));
            if n / 10 < 10 {
            }
            assert(r <= 20) by {
                lemma_decimal_len_bound(n as nat);
            }
        }
        r
    }
}

pub open spec fn pow10(k: nat) -> nat
    decreases k,
{
    if k == 0 {
        1
    } else {
        10 * pow10((k - 1) as nat)
    }
}

/// Numbers below `10^k` have at most `k` digits.
proof fn lemma_decimal_len_below(n: nat, k: nat)
    requires
        k >= 1,
        n < pow10(k),
    ensures
        decimal(n).len() <= k,
    decreases n,
{
    if n >= 10 {
        assert(k >= 2) by {
            if k == 1 {
                assert(pow10(1) == 10 * pow10(0));
            }
        }
        assert(pow10(k) == 10 * pow10((k - 1) as nat));
        assert(n / 10 < pow10((k - 1) as nat));
        lemma_decimal_len_below(n / 10, (k - 1) as nat);
    }
}

proof fn lemma_decimal_len_bound(n: nat)
    requires
        n <= 0xffff_ffff_ffff_ffff,
    ensures
        decimal(n).len() <= 20,
{
    reveal_with_fuel(pow10, 21);
    assert(pow10(20) == 100000000000000000000);
    lemma_decimal_len_below(n, 20);
}

/// Appends `n` in decimal, left-padded with zeros to `width` characters.
pub fn push_padded(out: &mut String, n: u64, width: usize)
    ensures
        final(out)@ == old(out)@ + padded(n as nat, width as nat),
{
    proof {
        reveal_strlit("0");
    }
    let len = decimal_len(n);
    if len < width {
        let mut i: usize = len;
        let ghost start = out@;
        while i < width
            invariant
                len <= i <= width,
                out@ == start + Seq::new((i - len) as nat, |j: int| '0'),
            decreases width - i,
        {
            out.append("0");
            proof {
                reveal_strlit("0");
            }
            i = i + 1;
            assert(out@ =~= start + Seq::new((i - len) as nat, |j: int| '0'));
        }
    }
    push_decimal(out, n);
    assert(final(out)@ =~= old(out)@ + padded(n as nat, width as nat));
}

/// Whether two strings hold the same characters.
pub fn same_text(a: &str, b: &str) -> (r: bool)
    ensures
        r == (a@ == b@),
{
    let n = a.unicode_len();
    if n != b.unicode_len() {
        return false;
    }
    let mut i: usize = 0;
    while i < n
        invariant
            i <= n,
            n == a@.len(),
            n == b@.len(),
            forall|j: int| 0 <= j < i ==> a@[j] == b@[j],
        decreases n - i,
    {
        if a.get_char(i) != b.get_char(i) {
            return false;
        }
        i = i + 1;
    }
    assert(a@ =~= b@);
    true
}

/// `needle` occurs in `hay` starting at position `k`.
pub open spec fn occurs_at(hay: Seq<u8>, needle: Seq<u8>, k: int) -> bool {
    &&& 0 <= k
    &&& k + needle.len() <= hay.len()
    &&& hay.subrange(k, k + needle.len()) == needle
}

/// `needle` occurs somewhere in `hay` as a contiguous run.
pub open spec fn has_substring(hay: Seq<u8>, needle: Seq<u8>) -> bool {
    exists|k: int| occurs_at(hay, needle, k)
}

/// Whether `hay` contains `needle`: whether the UTF-8 bytes of `needle`
/// occur as a contiguous run in those of `hay` (the empty text occurs
/// everywhere).
pub fn text_contains(hay: &str, needle: &str) -> (r: bool)
    ensures
        r == has_substring(vstd::utf8::encode_utf8(hay@), vstd::utf8::encode_utf8(needle@)),
{
    let h = hay.as_bytes();
    let n = needle.as_bytes();
    if n.len() > h.len() {
        assert forall|k: int| !occurs_at(h@, n@, k) by {}
        return false;
    }
    let limit = h.len() - n.len();
    let mut k: usize = 0;
    loop
        invariant
            h@ == vstd::utf8::encode_utf8(hay@),
            n@ == vstd::utf8::encode_utf8(needle@),
            n.len() <= h.len(),
            limit == h.len() - n.len(),
            k <= limit,
            forall|j: int| 0 <= j < k ==> !occurs_at(h@, n@, j),
        decreases limit - k,
    {
        let mut t: usize = 0;
        let mut same = true;
        while same && t < n.len()
            invariant
                k <= limit,
                limit == h.len() - n.len(),
                t <= n.len(),
                same ==> forall|u: int| 0 <= u < t ==> h@[k + u] == n@[u],
                !same ==> t < n.len() && h@[k + t] != n@[t as int],
            decreases 2 * (n.len() - t) + if same { 1int } else { 0int },
        {
            if h[k + t] != n[t] {
                same = false;
            } else {
                t = t + 1;
            }
        }
        if same {
            assert(h@.subrange(k as int, k + n@.len()) =~= n@);
            assert(occurs_at(h@, n@, k as int));
            return true;
        }
        assert(!occurs_at(h@, n@, k as int)) by {
            if h@.subrange(k as int, k + n@.len()) == n@ {
                assert(h@[k + t as int] == h@.subrange(k as int, k + n@.len())[t as int]);
            }
        }
        if k == limit {
            assert forall|j: int| !occurs_at(h@, n@, j) by {
                if 0 <= j && j + n@.len() <= h@.len() {
                    assert(j <= k);
                }
            }
            return false;
        }
        k = k + 1;
    }
}

/// `a` and `b` agree on their first `k` characters.
pub open spec fn agree_before(a: Seq<char>, b: Seq<char>, k: int) -> bool {
    forall|j: int| 0 <= j < k ==> #[trigger] a[j] == b[j]
}

/// `a` differs from `b` first at position `k`, where its character is the smaller.
pub open spec fn smaller_at(a: Seq<char>, b: Seq<char>, k: int) -> bool {
    &&& 0 <= k < a.len()
    &&& k < b.len()
    &&& agree_before(a, b, k)
    &&& (a[k] as int) < (b[k] as int)
}

/// Text order, character by character: `a` comes before `b` where, at the
/// first position they differ, its character is the smaller, or where it is
/// a proper prefix of `b`.
pub open spec fn text_before(a: Seq<char>, b: Seq<char>) -> bool {
    ||| exists|k: int| smaller_at(a, b, k)
    ||| a.len() < b.len() && agree_before(a, b, a.len() as int)
}

/// No text comes before itself.
pub proof fn lemma_text_before_irreflexive(a: Seq<char>)
    ensures
        !text_before(a, a),
{
}

/// Text order is transitive.
pub proof fn lemma_text_before_transitive(a: Seq<char>, b: Seq<char>, c: Seq<char>)
    requires
        text_before(a, b),
        text_before(b, c),
    ensures
        text_before(a, c),
{
    if exists|k: int| smaller_at(a, b, k) {
        let k1 = choose|k: int| smaller_at(a, b, k);
        if exists|k: int| smaller_at(b, c, k) {
            let k2 = choose|k: int| smaller_at(b, c, k);
            if k1 < k2 {
                assert(b[k1] == c[k1]);
                assert(smaller_at(a, c, k1));
            } else if k2 < k1 {
                assert(a[k2] == b[k2]);
                assert(smaller_at(a, c, k2));
            } else {
                assert(smaller_at(a, c, k1));
            }
        } else {
            assert(b[k1] == c[k1]);
            assert(smaller_at(a, c, k1));
        }
    } else {
        if exists|k: int| smaller_at(b, c, k) {
            let k2 = choose|k: int| smaller_at(b, c, k);
            if k2 < a.len() {
                assert(a[k2] == b[k2]);
                assert(smaller_at(a, c, k2));
            } else {
                assert(agree_before(a, c, a.len() as int)) by {
                    assert forall|j: int| 0 <= j < a.len() implies #[trigger] a[j] == c[j] by {
                        assert(a[j] == b[j]);
                        assert(b[j] == c[j]);
                    }
                }
            }
        } else {
            assert(agree_before(a, c, a.len() as int)) by {
                assert forall|j: int| 0 <= j < a.len() implies #[trigger] a[j] == c[j] by {
                    assert(a[j] == b[j]);
                    assert(b[j] == c[j]);
                }
            }
        }
    }
}

/// Where two texts agree on their first `k` characters but not on their
/// first `m`, they differ first at some position from `k` on.
proof fn lemma_first_difference(a: Seq<char>, b: Seq<char>, k: int, m: int)
    requires
        0 <= k <= m <= a.len(),
        m <= b.len(),
        agree_before(a, b, k),
        !agree_before(a, b, m),
    ensures
        exists|j: int| k <= j < m && agree_before(a, b, j) && a[j] != b[j],
    decreases m - k,
{
    if a[k] != b[k] {
        assert(agree_before(a, b, k) && a[k] != b[k]);
    } else {
        assert(agree_before(a, b, k + 1)) by {
            assert forall|j: int| 0 <= j < k + 1 implies #[trigger] a[j] == b[j] by {
                if j < k {
                    assert(a[j] == b[j]);
                }
            }
        }
        if k + 1 == m {
            assert(false);
        }
        lemma_first_difference(a, b, k + 1, m);
    }
}

/// Of two different texts, one comes before the other.
pub proof fn lemma_text_before_total(a: Seq<char>, b: Seq<char>)
    requires
        a != b,
    ensures
        text_before(a, b) || text_before(b, a),
{
    let m = if a.len() < b.len() {
        a.len() as int
    } else {
        b.len() as int
    };
    if agree_before(a, b, m) {
        if a.len() == b.len() {
            assert(a =~= b);
        } else if b.len() < a.len() {
            assert(agree_before(b, a, b.len() as int)) by {
                assert forall|j: int| 0 <= j < b.len() implies #[trigger] b[j] == a[j] by {
                    assert(a[j] == b[j]);
                }
            }
        }
    } else {
        lemma_first_difference(a, b, 0, m);
        let j = choose|j: int| 0 <= j < m && agree_before(a, b, j) && a[j] != b[j];
        if (a[j] as int) < (b[j] as int) {
            assert(smaller_at(a, b, j));
        } else {
            assert(agree_before(b, a, j)) by {
                assert forall|q: int| 0 <= q < j implies #[trigger] b[q] == a[q] by {
                    assert(a[q] == b[q]);
                }
            }
            assert(smaller_at(b, a, j));
        }
    }
}

/// Whether `a` comes before `b` in text order.
pub fn text_precedes(a: &str, b: &str) -> (r: bool)
    ensures
        r == text_before(a@, b@),
{
    let la = a.unicode_len();
    let lb = b.unicode_len();
    let n = if la < lb {
        la
    } else {
        lb
    };
    let mut i: usize = 0;
    while i < n
        invariant
            i <= n,
            n <= la,
            n <= lb,
            la == a@.len(),
            lb == b@.len(),
            agree_before(a@, b@, i as int),
        decreases n - i,
    {
        let ca = a.get_char(i);
        let cb = b.get_char(i);
        if ca != cb {
            let before = ca < cb;
            proof {
                if before {
                    assert(smaller_at(a@, b@, i as int));
                } else {
                    assert forall|k: int| !smaller_at(a@, b@, k) by {
                        if 0 <= k < a@.len() && k < b@.len() && agree_before(a@, b@, k) {
                            if k > i {
                                assert(a@[i as int] == b@[i as int]);
                            }
                        }
                    }
                    assert(!agree_before(a@, b@, a@.len() as int)) by {
                        assert(a@[i as int] != b@[i as int]);
                    }
                }
            }
            return before;
        }
        i = i + 1;
    }
    proof {
        assert forall|k: int| !smaller_at(a@, b@, k) by {
            if 0 <= k < a@.len() && k < b@.len() && agree_before(a@, b@, k) {
                assert(a@[k] == b@[k]);
            }
        }
    }
    la < lb
}

} // verus!
