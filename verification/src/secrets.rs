//! Secret masking: every occurrence of a secret value is replaced by a fixed
//! mask token before content enters the log pipeline, so that secrets never
//! appear in outbound log traffic.
//!
//! The masking scan walks the content left to right; wherever the secret
//! starts, the token `***` is emitted and the scan skips past the occurrence;
//! any other character is copied. The lemmas below establish the point of
//! the pass: the result holds no occurrence of the masked secret, and
//! masking one secret never introduces an occurrence of another, as long as
//! the secret is non-empty and does not itself contain the mask character.

use vstd::prelude::*;

use crate::kvmap::StrMap;
use crate::strutil::{chars_of, string_from_chars};

verus! {

/// `pat` occurs in `s` starting at position `p`.
pub open spec fn occurs_at(s: Seq<char>, pat: Seq<char>, p: int) -> bool {
    0 <= p && p + pat.len() <= s.len() && s.subrange(p, p + pat.len()) == pat
}

/// `pat` occurs somewhere in `s`.
pub open spec fn contains_pat(s: Seq<char>, pat: Seq<char>) -> bool {
    exists|p: int| occurs_at(s, pat, p)
}

/// The masking scan: occurrences of `sec` become `***`, everything else is
/// copied. An empty secret masks nothing.
pub open spec fn spec_mask(s: Seq<char>, sec: Seq<char>) -> Seq<char>
    decreases s.len(),
{
    if sec.len() == 0 || s.len() < sec.len() {
        s
    } else if s.subrange(0, sec.len() as int) == sec {
        seq!['*', '*', '*'] + spec_mask(s.skip(sec.len() as int), sec)
    } else {
        seq![s[0]] + spec_mask(s.skip(1), sec)
    }
}

/// Masking under a row of secrets, applied left to right.
pub open spec fn masked_all(s: Seq<char>, secs: Seq<Seq<char>>) -> Seq<char>
    decreases secs.len(),
{
    if secs.len() == 0 {
        s
    } else {
        masked_all(spec_mask(s, secs.first()), secs.drop_first())
    }
}

/// The secret values of a secrets map, in backing order.
pub open spec fn secret_values(pairs: Seq<(String, String)>) -> Seq<Seq<char>> {
    pairs.map_values(|p: (String, String)| p.1@)
}

proof fn lemma_no_star(sec: Seq<char>, i: int)
    requires
        !sec.contains('*'),
        0 <= i < sec.len(),
    ensures
        sec[i] != '*',
{
    if sec[i] == '*' {
        assert(sec.contains('*'));
    }
}

/// A suffix of a string free of `pat` is free of `pat`.
proof fn lemma_suffix_clean(s: Seq<char>, pat: Seq<char>, d: int)
    requires
        0 <= d <= s.len(),
        !contains_pat(s, pat),
    ensures
        !contains_pat(s.skip(d), pat),
{
    if contains_pat(s.skip(d), pat) {
        let p = choose|p: int| occurs_at(s.skip(d), pat, p);
        assert(s.subrange(p + d, p + d + pat.len()) =~= s.skip(d).subrange(p, p + pat.len()));
        assert(occurs_at(s, pat, p + d));
    }
}

/// Any slice of a string free of `pat` is free of `pat`: chunking clean
/// content cannot resurrect a secret inside a chunk.
pub proof fn lemma_clean_subrange(s: Seq<char>, pat: Seq<char>, lo: int, hi: int)
    requires
        0 <= lo <= hi <= s.len(),
        !contains_pat(s, pat),
    ensures
        !contains_pat(s.subrange(lo, hi), pat),
{
    if contains_pat(s.subrange(lo, hi), pat) {
        let p = choose|p: int| occurs_at(s.subrange(lo, hi), pat, p);
        assert(s.subrange(p + lo, p + lo + pat.len()) =~= s.subrange(lo, hi).subrange(
            p,
            p + pat.len(),
        ));
        assert(occurs_at(s, pat, p + lo));
    }
}

/// While the masked output shows no mask character, it is a plain copy of
/// the input: the scan has replaced nothing in that span.
proof fn lemma_mask_prefix_copies(s: Seq<char>, sec: Seq<char>, k: int)
    requires
        sec.len() >= 1,
        0 <= k <= spec_mask(s, sec).len(),
        forall|i: int| 0 <= i < k ==> spec_mask(s, sec)[i] != '*',
    ensures
        k <= s.len(),
        spec_mask(s, sec).subrange(0, k) == s.subrange(0, k),
    decreases s.len(),
{
    let m = spec_mask(s, sec);
    if s.len() < sec.len() {
        assert(m.subrange(0, k) =~= s.subrange(0, k));
    } else if s.subrange(0, sec.len() as int) == sec {
        if k > 0 {
            assert(m[0] == '*');
        }
        assert(m.subrange(0, k) =~= s.subrange(0, k));
    } else {
        if k == 0 {
            assert(m.subrange(0, k) =~= s.subrange(0, k));
        } else {
            let tail = spec_mask(s.skip(1), sec);
            assert(forall|i: int| 1 <= i < k ==> m[i] == tail[i - 1]);
            assert(forall|i: int| 0 <= i < k - 1 ==> tail[i] != '*') by {
                assert(forall|i: int| 0 <= i < k - 1 ==> tail[i] == m[i + 1]);
            }
            lemma_mask_prefix_copies(s.skip(1), sec, k - 1);
            assert(m.subrange(0, k) =~= s.subrange(0, k)) by {
                assert(m[0] == s[0]);
                assert(forall|i: int|
                    1 <= i < k ==> m[i] == tail[i - 1] && tail.subrange(0, k - 1)[i - 1]
                        == s.skip(1).subrange(0, k - 1)[i - 1]);
                assert(forall|i: int| 1 <= i < k ==> m[i] == s[i]);
            }
        }
    }
}

/// Masking removes the secret: no occurrence of a non-empty secret free of
/// the mask character survives in the masked output.
pub proof fn lemma_mask_removes_secret(s: Seq<char>, sec: Seq<char>)
    requires
        sec.len() >= 1,
        !sec.contains('*'),
    ensures
        !contains_pat(spec_mask(s, sec), sec),
    decreases s.len(),
{
    let m = spec_mask(s, sec);
    let ln = sec.len() as int;
    if contains_pat(m, sec) {
        let p = choose|p: int| occurs_at(m, sec, p);
        assert(forall|i: int| 0 <= i < ln ==> sec[i] == m.subrange(p, p + ln)[i]);
        if s.len() < sec.len() {
            assert(false);
        } else if s.subrange(0, ln) == sec {
            lemma_mask_removes_secret(s.skip(ln), sec);
            let rest = spec_mask(s.skip(ln), sec);
            if p < 3 {
                assert(m[p] == '*');
                assert(sec[0] == m[p]);
                lemma_no_star(sec, 0);
                assert(false);
            } else {
                assert(m.subrange(p, p + ln) =~= rest.subrange(p - 3, p - 3 + ln));
                assert(occurs_at(rest, sec, p - 3));
                assert(false);
            }
        } else {
            lemma_mask_removes_secret(s.skip(1), sec);
            let rest = spec_mask(s.skip(1), sec);
            if p >= 1 {
                assert(m.subrange(p, p + ln) =~= rest.subrange(p - 1, p - 1 + ln));
                assert(occurs_at(rest, sec, p - 1));
                assert(false);
            } else {
                assert(sec[0] == m[0]);
                assert(m[0] == s[0]);
                assert(forall|i: int| 0 <= i < ln - 1 ==> #[trigger] rest[i] == m[i + 1]);
                assert(forall|i: int| 1 <= i < ln ==> #[trigger] m[i] == sec[i]);
                assert(forall|i: int| 0 <= i < ln - 1 ==> #[trigger] rest[i] == sec[i + 1]);
                assert(forall|i: int| 0 <= i < ln - 1 ==> rest[i] != '*') by {
                    assert forall|i: int| 0 <= i < ln - 1 implies rest[i] != '*' by {
                        lemma_no_star(sec, i + 1);
                    }
                }
                lemma_mask_prefix_copies(s.skip(1), sec, ln - 1);
                assert(s.subrange(0, ln) =~= sec) by {
                    assert(forall|i: int|
                        0 <= i < ln - 1 ==> #[trigger] rest.subrange(0, ln - 1)[i] == s.skip(
                            1,
                        ).subrange(0, ln - 1)[i]);
                    assert(forall|i: int| 1 <= i < ln ==> sec[i] == rest[i - 1]);
                    assert forall|i: int| 1 <= i < ln implies s[i] == sec[i] by {
                        assert(rest.subrange(0, ln - 1)[i - 1] == s.skip(1).subrange(0, ln - 1)[i
                            - 1]);
                        assert(rest[i - 1] == s.skip(1)[i - 1]);
                        assert(s.skip(1)[i - 1] == s[i]);
                        assert(rest[i - 1] == sec[i]);
                    }
                }
                assert(false);
            }
        }
    }
}

/// Masking one secret introduces no occurrence of another: a non-empty
/// pattern free of the mask character that was absent stays absent.
pub proof fn lemma_mask_preserves_absence(s: Seq<char>, sec: Seq<char>, other: Seq<char>)
    requires
        other.len() >= 1,
        !other.contains('*'),
        !contains_pat(s, other),
    ensures
        !contains_pat(spec_mask(s, sec), other),
    decreases s.len(),
{
    let m = spec_mask(s, sec);
    let ln = other.len() as int;
    if contains_pat(m, other) {
        let p = choose|p: int| occurs_at(m, other, p);
        assert(forall|i: int| 0 <= i < ln ==> other[i] == m.subrange(p, p + ln)[i]);
        if sec.len() == 0 || s.len() < sec.len() {
            assert(occurs_at(s, other, p));
            assert(false);
        } else if s.subrange(0, sec.len() as int) == sec {
            lemma_suffix_clean(s, other, sec.len() as int);
            lemma_mask_preserves_absence(s.skip(sec.len() as int), sec, other);
            let rest = spec_mask(s.skip(sec.len() as int), sec);
            if p < 3 {
                assert(m[p] == '*');
                assert(other[0] == m[p]);
                lemma_no_star(other, 0);
                assert(false);
            } else {
                assert(m.subrange(p, p + ln) =~= rest.subrange(p - 3, p - 3 + ln));
                assert(occurs_at(rest, other, p - 3));
                assert(false);
            }
        } else {
            lemma_suffix_clean(s, other, 1);
            lemma_mask_preserves_absence(s.skip(1), sec, other);
            let rest = spec_mask(s.skip(1), sec);
            if p >= 1 {
                assert(m.subrange(p, p + ln) =~= rest.subrange(p - 1, p - 1 + ln));
                assert(occurs_at(rest, other, p - 1));
                assert(false);
            } else {
                assert(other[0] == m[0]);
                assert(m[0] == s[0]);
                assert(forall|i: int| 0 <= i < ln - 1 ==> #[trigger] rest[i] == m[i + 1]);
                assert(forall|i: int| 1 <= i < ln ==> #[trigger] m[i] == other[i]);
                assert(forall|i: int| 0 <= i < ln - 1 ==> #[trigger] rest[i] == other[i + 1]);
                assert(forall|i: int| 0 <= i < ln - 1 ==> rest[i] != '*') by {
                    assert forall|i: int| 0 <= i < ln - 1 implies rest[i] != '*' by {
                        lemma_no_star(other, i + 1);
                    }
                }
                lemma_mask_prefix_copies(s.skip(1), sec, ln - 1);
                assert(s.subrange(0, ln) =~= other) by {
                    assert(forall|i: int|
                        0 <= i < ln - 1 ==> #[trigger] rest.subrange(0, ln - 1)[i] == s.skip(
                            1,
                        ).subrange(0, ln - 1)[i]);
                    assert(forall|i: int| 1 <= i < ln ==> other[i] == rest[i - 1]);
                    assert forall|i: int| 1 <= i < ln implies s[i] == other[i] by {
                        assert(rest.subrange(0, ln - 1)[i - 1] == s.skip(1).subrange(0, ln - 1)[i
                            - 1]);
                        assert(rest[i - 1] == s.skip(1)[i - 1]);
                        assert(s.skip(1)[i - 1] == s[i]);
                        assert(rest[i - 1] == other[i]);
                    }
                }
                assert(occurs_at(s, other, 0));
                assert(false);
            }
        }
    }
}

proof fn lemma_masked_all_preserves_absence(s: Seq<char>, secs: Seq<Seq<char>>, other: Seq<char>)
    requires
        other.len() >= 1,
        !other.contains('*'),
        !contains_pat(s, other),
    ensures
        !contains_pat(masked_all(s, secs), other),
    decreases secs.len(),
{
    if secs.len() > 0 {
        lemma_mask_preserves_absence(s, secs.first(), other);
        lemma_masked_all_preserves_absence(spec_mask(s, secs.first()), secs.drop_first(), other);
    }
}

/// Secrets never appear in masked content: after the full masking pass, no
/// non-empty secret value free of the mask character occurs in the result,
/// whatever the other secrets look like.
pub proof fn lemma_masked_content_carries_no_secret(s: Seq<char>, secs: Seq<Seq<char>>, i: int)
    requires
        0 <= i < secs.len(),
        secs[i].len() >= 1,
        !secs[i].contains('*'),
    ensures
        !contains_pat(masked_all(s, secs), secs[i]),
    decreases secs.len(),
{
    if i == 0 {
        lemma_mask_removes_secret(s, secs.first());
        lemma_masked_all_preserves_absence(spec_mask(s, secs.first()), secs.drop_first(), secs[0]);
    } else {
        lemma_masked_content_carries_no_secret(spec_mask(s, secs.first()), secs.drop_first(), i - 1);
        assert(secs.drop_first()[i - 1] == secs[i]);
    }
}

/// Whether `sec` starts at position `i` of `s`.
fn match_at(s: &Vec<char>, i: usize, sec: &Vec<char>) -> (r: bool)
    requires
        i + sec@.len() <= s@.len(),
    ensures
        r == (s@.subrange(i as int, i + sec@.len()) == sec@),
{
    let total = s.len();
    let mut j: usize = 0;
    while j < sec.len()
        invariant
            j <= sec@.len(),
            i + sec@.len() <= s@.len(),
            total == s@.len(),
            forall|t: int| 0 <= t < j ==> s@[i + t] == sec@[t],
        decreases sec@.len() - j,
    {
        proof {
            assert(i + j < s@.len());
        }
        if s[i + j] != sec[j] {
            proof {
                assert(s@.subrange(i as int, i + sec@.len())[j as int] != sec@[j as int]);
            }
            return false;
        }
        j = j + 1;
    }
    proof {
        assert(s@.subrange(i as int, i + sec@.len()) =~= sec@);
    }
    true
}

/// The masking scan over characters.
fn mask_chars(s: &Vec<char>, sec: &Vec<char>) -> (r: Vec<char>)
    requires
        sec@.len() >= 1,
    ensures
        r@ == spec_mask(s@, sec@),
{
    let mut out: Vec<char> = Vec::new();
    let mut i: usize = 0;
    proof {
        assert(s@.skip(0) =~= s@);
        assert(out@ + spec_mask(s@, sec@) =~= spec_mask(s@, sec@));
    }
    while i < s.len()
        invariant
            i <= s@.len(),
            sec@.len() >= 1,
            out@ + spec_mask(s@.skip(i as int), sec@) == spec_mask(s@, sec@),
        decreases s@.len() - i,
    {
        let ghost before = s@.skip(i as int);
        if sec.len() <= s.len() - i && match_at(s, i, sec) {
            proof {
                assert(before.subrange(0, sec@.len() as int) =~= s@.subrange(
                    i as int,
                    i + sec@.len(),
                ));
                assert(before.skip(sec@.len() as int) =~= s@.skip(i + sec@.len()));
                assert(spec_mask(before, sec@) == seq!['*', '*', '*'] + spec_mask(
                    s@.skip(i + sec@.len()),
                    sec@,
                ));
            }
            out.push('*');
            out.push('*');
            out.push('*');
            proof {
                assert(out@ + spec_mask(s@.skip(i + sec@.len()), sec@) =~= spec_mask(s@, sec@));
            }
            i = i + sec.len();
        } else {
            proof {
                if before.len() < sec@.len() {
                    assert(spec_mask(before, sec@) == before);
                    assert(before.skip(1) =~= s@.skip(i + 1));
                    assert(spec_mask(before.skip(1), sec@) == before.skip(1));
                    assert(before =~= seq![before[0]] + before.skip(1));
                    assert(spec_mask(before, sec@) == seq![before[0]] + spec_mask(
                        s@.skip(i + 1),
                        sec@,
                    ));
                } else {
                    assert(before.subrange(0, sec@.len() as int) =~= s@.subrange(
                        i as int,
                        i + sec@.len(),
                    ));
                    assert(before.subrange(0, sec@.len() as int) != sec@);
                    assert(before.skip(1) =~= s@.skip(i + 1));
                    assert(spec_mask(before, sec@) == seq![before[0]] + spec_mask(
                        s@.skip(i + 1),
                        sec@,
                    ));
                }
                assert(before[0] == s@[i as int]);
            }
            out.push(s[i]);
            proof {
                assert(out@ + spec_mask(s@.skip(i + 1), sec@) =~= spec_mask(s@, sec@));
            }
            i = i + 1;
        }
    }
    proof {
        assert(s@.skip(i as int) =~= Seq::<char>::empty());
        assert(spec_mask(s@.skip(i as int), sec@) == s@.skip(i as int));
        assert(out@ =~= spec_mask(s@, sec@));
    }
    out
}

/// Replace every occurrence of one secret value by the mask token.
pub fn mask_secret(content: &str, secret: &str) -> (r: String)
    ensures
        r@ == spec_mask(content@, secret@),
{
    let sec = chars_of(secret);
    if sec.len() == 0 {
        return content.to_owned();
    }
    let cs = chars_of(content);
    let out = mask_chars(&cs, &sec);
    string_from_chars(&out)
}

/// Replace every occurrence of every secret value of the map by the mask
/// token, in backing order.
pub fn mask_secrets(content: &str, secrets: &StrMap) -> (r: String)
    ensures
        r@ == masked_all(content@, secret_values(secrets.pairs())),
{
    let ghost values = secret_values(secrets.pairs());
    let mut acc = content.to_owned();
    let n = secrets.pair_count();
    let mut i: usize = 0;
    proof {
        assert(values.skip(0) =~= values);
    }
    while i < n
        invariant
            i <= n,
            n == secrets.pairs().len(),
            values == secret_values(secrets.pairs()),
            masked_all(acc@, values.skip(i as int)) == masked_all(content@, values),
        decreases n - i,
    {
        let (_, v) = secrets.pair_at(i);
        let next = mask_secret(acc.as_str(), v.as_str());
        proof {
            let rest = values.skip(i as int);
            assert(rest.first() == values[i as int]);
            assert(values[i as int] == secrets.pairs()[i as int].1@);
            assert(rest.drop_first() =~= values.skip(i + 1));
            assert(masked_all(next@, values.skip(i + 1)) == masked_all(acc@, rest));
        }
        acc = next;
        i = i + 1;
    }
    proof {
        assert(values.skip(n as int) =~= Seq::<Seq<char>>::empty());
        assert(masked_all(acc@, values.skip(n as int)) == acc@);
    }
    acc
}

} // verus!
