//! Parsing step outputs from captured stdout. Two line forms feed the job's
//! outputs map: the directive `::set-output name=KEY::VALUE`, and a bare
//! `KEY=VALUE` line not starting with `::` whose trimmed key is non-empty
//! and holds no space. Later bindings overwrite earlier ones.

use vstd::prelude::*;

use crate::kvmap::StrMap;
use crate::strutil::{chars_of, string_from_chars};

verus! {

/// A space-like character, as trimmed from bare `KEY=VALUE` lines.
pub open spec fn is_space(c: char) -> bool {
    c == ' ' || c == '\t' || c == '\r' || c == '\n'
}

/// The line without leading space-like characters.
pub open spec fn trim_front(s: Seq<char>) -> Seq<char>
    decreases s.len(),
{
    if s.len() > 0 && is_space(s.first()) {
        trim_front(s.drop_first())
    } else {
        s
    }
}

/// The line without trailing space-like characters.
pub open spec fn trim_back(s: Seq<char>) -> Seq<char>
    decreases s.len(),
{
    if s.len() > 0 && is_space(s.last()) {
        trim_back(s.drop_last())
    } else {
        s
    }
}

/// The line trimmed on both sides.
pub open spec fn trim_spec(s: Seq<char>) -> Seq<char> {
    trim_back(trim_front(s))
}

/// The first position of `c` in `s`, or -1.
pub open spec fn find_char(s: Seq<char>, c: char) -> int
    decreases s.len(),
{
    if s.len() == 0 {
        -1
    } else if s.first() == c {
        0
    } else {
        let r = find_char(s.drop_first(), c);
        if r < 0 {
            -1
        } else {
            r + 1
        }
    }
}

proof fn lemma_find_char(s: Seq<char>, c: char)
    ensures
        find_char(s, c) == -1 ==> forall|i: int| 0 <= i < s.len() ==> s[i] != c,
        find_char(s, c) >= 0 ==> find_char(s, c) < s.len() && s[find_char(s, c)] == c && (forall|
            i: int,
        | 0 <= i < find_char(s, c) ==> s[i] != c),
    decreases s.len(),
{
    if s.len() > 0 && s.first() != c {
        lemma_find_char(s.drop_first(), c);
        assert(forall|i: int| 1 <= i < s.len() ==> s[i] == s.drop_first()[i - 1]);
    }
}

/// The first position where `::` starts in `s`, or -1.
pub open spec fn find_double_colon(s: Seq<char>) -> int
    decreases s.len(),
{
    if s.len() < 2 {
        -1
    } else if s[0] == ':' && s[1] == ':' {
        0
    } else {
        let r = find_double_colon(s.drop_first());
        if r < 0 {
            -1
        } else {
            r + 1
        }
    }
}

proof fn lemma_find_double_colon(s: Seq<char>)
    ensures
        find_double_colon(s) == -1 ==> forall|p: int|
            0 <= p < s.len() - 1 ==> !(#[trigger] s[p] == ':' && s[p + 1] == ':'),
        find_double_colon(s) >= 0 ==> {
            let p = find_double_colon(s);
            p < s.len() - 1 && s[p] == ':' && s[p + 1] == ':' && (forall|q: int|
                0 <= q < p ==> !(#[trigger] s[q] == ':' && s[q + 1] == ':'))
        },
    decreases s.len(),
{
    if s.len() >= 2 && !(s[0] == ':' && s[1] == ':') {
        lemma_find_double_colon(s.drop_first());
        assert(forall|i: int| 1 <= i < s.len() ==> s[i] == s.drop_first()[i - 1]);
    }
}

/// The characters of the directive prefix `::set-output name=`.
pub open spec fn set_output_prefix() -> Seq<char> {
    seq![
        ':',
        ':',
        's',
        'e',
        't',
        '-',
        'o',
        'u',
        't',
        'p',
        'u',
        't',
        ' ',
        'n',
        'a',
        'm',
        'e',
        '=',
    ]
}

/// The binding one line contributes to the outputs map, if any.
pub open spec fn line_binding(line: Seq<char>) -> Option<(Seq<char>, Seq<char>)> {
    if line.len() >= 18 && line.subrange(0, 18) == set_output_prefix() {
        let rest = line.skip(18);
        let p = find_double_colon(rest);
        if p >= 0 {
            Some((rest.subrange(0, p), rest.skip(p + 2)))
        } else {
            None
        }
    } else if !(line.len() >= 2 && line[0] == ':' && line[1] == ':') && find_char(line, '=')
        >= 0 {
        let e = find_char(line, '=');
        let key = trim_spec(line.subrange(0, e));
        let value = trim_spec(line.skip(e + 1));
        if key.len() > 0 && !key.contains(' ') {
            Some((key, value))
        } else {
            None
        }
    } else {
        None
    }
}

/// One line folded into the outputs map.
pub open spec fn apply_line(
    m: Map<Seq<char>, Seq<char>>,
    line: Seq<char>,
) -> Map<Seq<char>, Seq<char>> {
    match line_binding(line) {
        Some(b) => m.insert(b.0, b.1),
        None => m,
    }
}

/// A row of lines folded into the outputs map, in order.
pub open spec fn apply_lines(m: Map<Seq<char>, Seq<char>>, lines: Seq<Seq<char>>) -> Map<
    Seq<char>,
    Seq<char>,
>
    decreases lines.len(),
{
    if lines.len() == 0 {
        m
    } else {
        apply_lines(apply_line(m, lines.first()), lines.drop_first())
    }
}

/// A line as split at a newline, with a carriage return before the newline
/// stripped.
pub open spec fn strip_cr(l: Seq<char>) -> Seq<char> {
    if l.len() > 0 && l.last() == '\r' {
        l.drop_last()
    } else {
        l
    }
}

/// The lines of `s`, split at newlines; the final line ending is optional,
/// and a carriage return counts as part of a line ending only before a
/// newline.
pub open spec fn split_lines_rec(s: Seq<char>, cur: Seq<char>) -> Seq<Seq<char>>
    decreases s.len(),
{
    if s.len() == 0 {
        if cur.len() == 0 {
            Seq::empty()
        } else {
            seq![cur]
        }
    } else if s.first() == '\n' {
        seq![strip_cr(cur)] + split_lines_rec(s.drop_first(), Seq::empty())
    } else {
        split_lines_rec(s.drop_first(), cur.push(s.first()))
    }
}

/// The lines of `s`.
pub open spec fn spec_lines(s: Seq<char>) -> Seq<Seq<char>> {
    split_lines_rec(s, Seq::empty())
}

/// The outputs map that stdout `s` denotes.
pub open spec fn parse_outputs_model(s: Seq<char>) -> Map<Seq<char>, Seq<char>> {
    apply_lines(Map::empty(), spec_lines(s))
}

/// The characters `v[lo..hi]`.
fn sub_chars(v: &Vec<char>, lo: usize, hi: usize) -> (r: Vec<char>)
    requires
        lo <= hi <= v@.len(),
    ensures
        r@ == v@.subrange(lo as int, hi as int),
{
    let mut r: Vec<char> = Vec::new();
    let mut i = lo;
    while i < hi
        invariant
            lo <= i <= hi <= v@.len(),
            r@ =~= v@.subrange(lo as int, i as int),
        decreases hi - i,
    {
        r.push(v[i]);
        proof {
            assert(r@ =~= v@.subrange(lo as int, i + 1 as int));
        }
        i = i + 1;
    }
    r
}

fn is_space_char(c: char) -> (r: bool)
    ensures
        r == is_space(c),
{
    c == ' ' || c == '\t' || c == '\r' || c == '\n'
}

/// The line with space-like characters removed from both ends.
fn trim_chars(v: &Vec<char>) -> (r: Vec<char>)
    ensures
        r@ == trim_spec(v@),
{
    let mut lo: usize = 0;
    proof {
        assert(v@.skip(0) =~= v@);
    }
    while lo < v.len() && is_space_char(v[lo])
        invariant
            lo <= v@.len(),
            trim_front(v@) == trim_front(v@.skip(lo as int)),
        decreases v@.len() - lo,
    {
        proof {
            assert(v@.skip(lo as int).drop_first() =~= v@.skip(lo + 1));
        }
        lo = lo + 1;
    }
    proof {
        if lo < v@.len() {
            assert(!is_space(v@.skip(lo as int).first()));
        }
        assert(trim_front(v@) == v@.skip(lo as int));
    }
    let mut hi: usize = v.len();
    while hi > lo && is_space_char(v[hi - 1])
        invariant
            lo <= hi <= v@.len(),
            trim_front(v@) == v@.skip(lo as int),
            trim_back(v@.skip(lo as int)) == trim_back(v@.subrange(lo as int, hi as int)),
        decreases hi,
    {
        proof {
            assert(v@.subrange(lo as int, hi as int).last() == v@[hi - 1]);
            assert(v@.subrange(lo as int, hi as int).drop_last() =~= v@.subrange(
                lo as int,
                hi - 1,
            ));
        }
        hi = hi - 1;
    }
    proof {
        assert(v@.skip(lo as int) =~= v@.subrange(lo as int, v@.len() as int));
        if hi > lo {
            assert(!is_space(v@.subrange(lo as int, hi as int).last()));
        }
        assert(trim_back(v@.subrange(lo as int, hi as int)) == v@.subrange(lo as int, hi as int));
    }
    sub_chars(v, lo, hi)
}

/// Whether the line carries the `::set-output name=` directive prefix.
fn has_directive_prefix(line: &Vec<char>) -> (r: bool)
    ensures
        r == (line@.len() >= 18 && line@.subrange(0, 18) == set_output_prefix()),
{
    if line.len() < 18 {
        return false;
    }
    let pat = chars_of("::set-output name=");
    proof {
        reveal_strlit("::set-output name=");
        assert(pat@ =~= set_output_prefix());
    }
    let mut j: usize = 0;
    while j < 18
        invariant
            j <= 18,
            line@.len() >= 18,
            pat@ == set_output_prefix(),
            pat@.len() == 18,
            forall|t: int| 0 <= t < j ==> line@[t] == pat@[t],
        decreases 18 - j,
    {
        if line[j] != pat[j] {
            proof {
                assert(line@.subrange(0, 18)[j as int] != set_output_prefix()[j as int]);
            }
            return false;
        }
        j = j + 1;
    }
    proof {
        assert(line@.subrange(0, 18) =~= set_output_prefix());
    }
    true
}

/// Whether a trimmed key may enter the outputs map: non-empty, no space.
fn key_acceptable(key: &Vec<char>) -> (r: bool)
    ensures
        r == (key@.len() > 0 && !key@.contains(' ')),
{
    if key.len() == 0 {
        return false;
    }
    let mut t: usize = 0;
    while t < key.len()
        invariant
            t <= key@.len(),
            forall|q: int| 0 <= q < t ==> key@[q] != ' ',
        decreases key@.len() - t,
    {
        if key[t] == ' ' {
            proof {
                assert(key@.contains(' '));
            }
            return false;
        }
        t = t + 1;
    }
    proof {
        assert(!key@.contains(' ')) by {
            if key@.contains(' ') {
                let w = choose|w: int| 0 <= w < key@.len() && key@[w] == ' ';
                assert(key@[w] != ' ');
            }
        }
    }
    true
}

/// Fold one line into the outputs map.
fn process_line(outputs: &mut StrMap, line: &Vec<char>)
    requires
        old(outputs).wf(),
    ensures
        final(outputs).wf(),
        final(outputs)@ == apply_line(old(outputs)@, line@),
{
    if has_directive_prefix(line) {
        let ghost rest = line@.skip(18);
        // Scan for the first `::` after the prefix.
        let mut j: usize = 18;
        let mut found: Option<usize> = None;
        while j < line.len() - 1 && found.is_none()
            invariant
                18 <= j <= line@.len(),
                line@.len() >= 18,
                rest == line@.skip(18),
                match found {
                    Some(f) => 18 <= f && f + 1 < line@.len() && line@[f as int] == ':'
                        && line@[f + 1] == ':' && j == f && (forall|q: int|
                        0 <= q < f - 18 ==> !(#[trigger] rest[q] == ':' && rest[q + 1] == ':')),
                    None => forall|q: int|
                        0 <= q < j - 18 ==> !(#[trigger] rest[q] == ':' && rest[q + 1] == ':'),
                },
            decreases
                    line@.len() - j + (if found is Some {
                        0int
                    } else {
                        1int
                    }),
        {
            if line[j] == ':' && line[j + 1] == ':' {
                found = Some(j);
            } else {
                proof {
                    assert(rest[j - 18] == line@[j as int] && rest[j - 18 + 1] == line@[j + 1]);
                }
                j = j + 1;
            }
        }
        proof {
            lemma_find_double_colon(rest);
        }
        match found {
            Some(f) => {
                proof {
                    assert(rest[f - 18] == ':' && rest[f - 18 + 1] == ':');
                    assert(find_double_colon(rest) == f - 18) by {
                        let p = find_double_colon(rest);
                        if p < f - 18 {
                            assert(!(rest[p] == ':' && rest[p + 1] == ':'));
                        }
                        if p == -1 || p > f - 18 {
                            assert(!(rest[f - 18] == ':' && rest[f - 18 + 1] == ':'));
                        }
                    }
                }
                let name = sub_chars(line, 18, f);
                let value = sub_chars(line, f + 2, line.len());
                proof {
                    assert(name@ =~= rest.subrange(0, f - 18));
                    assert(value@ =~= rest.skip(f - 18 + 2));
                    assert(line_binding(line@) == Some((name@, value@)));
                }
                outputs.insert(string_from_chars(&name), string_from_chars(&value));
                proof {
                    assert(outputs@ == apply_line(old(outputs)@, line@));
                }
            },
            None => {
                proof {
                    assert(forall|q: int|
                        0 <= q < rest.len() - 1 ==> !(#[trigger] rest[q] == ':' && rest[q + 1]
                            == ':'));
                    assert(find_double_colon(rest) == -1) by {
                        let p = find_double_colon(rest);
                        if p >= 0 {
                            assert(!(rest[p] == ':' && rest[p + 1] == ':'));
                        }
                    }
                }
            },
        }
    } else if !(line.len() >= 2 && line[0] == ':' && line[1] == ':') {
        // Scan for the first `=`.
        let mut j: usize = 0;
        let mut found: Option<usize> = None;
        while j < line.len() && found.is_none()
            invariant
                j <= line@.len(),
                match found {
                    Some(f) => f < line@.len() && line@[f as int] == '=' && j == f && (forall|
                        q: int,
                    | 0 <= q < f ==> line@[q] != '='),
                    None => forall|q: int| 0 <= q < j ==> line@[q] != '=',
                },
            decreases
                    line@.len() - j + (if found is Some {
                        0int
                    } else {
                        1int
                    }),
        {
            if line[j] == '=' {
                found = Some(j);
            } else {
                j = j + 1;
            }
        }
        proof {
            lemma_find_char(line@, '=');
        }
        match found {
            Some(f) => {
                proof {
                    assert(find_char(line@, '=') == f) by {
                        let p = find_char(line@, '=');
                        if 0 <= p < f {
                            assert(line@[p] != '=');
                        }
                        if p == -1 || p > f {
                            assert(line@[f as int] != '=');
                        }
                    }
                }
                let before = sub_chars(line, 0, f);
                let after = sub_chars(line, f + 1, line.len());
                proof {
                    assert(after@ =~= line@.skip(f + 1));
                }
                let key = trim_chars(&before);
                let value = trim_chars(&after);
                let key_ok = key_acceptable(&key);
                if key_ok {
                    proof {
                        assert(!(line@.len() >= 18 && line@.subrange(0, 18)
                            == set_output_prefix()));
                        assert(!(line@.len() >= 2 && line@[0] == ':' && line@[1] == ':'));
                        assert(find_char(line@, '=') == f as int);
                        assert(key@ == trim_spec(line@.subrange(0, f as int)));
                        assert(value@ == trim_spec(line@.skip(f as int + 1)));
                        assert(key@.len() > 0);
                        assert(!key@.contains(' '));
                        assert(line_binding(line@) == Some((key@, value@)));
                    }
                    outputs.insert(string_from_chars(&key), string_from_chars(&value));
                    proof {
                        assert(outputs@ == apply_line(old(outputs)@, line@));
                    }
                } else {
                    proof {
                        assert(line_binding(line@) is None);
                    }
                }
            },
            None => {
                proof {
                    assert(find_char(line@, '=') == -1) by {
                        let p = find_char(line@, '=');
                        if p >= 0 {
                            assert(line@[p] != '=');
                        }
                    }
                }
            },
        }
    }
}

/// Parse directive-style and assignment-style outputs from stdout. Later
/// values overwrite earlier ones on key collision.
pub fn parse_outputs(stdout: &str) -> (r: StrMap)
    ensures
        r.wf(),
        r@ == parse_outputs_model(stdout@),
{
    let cs = chars_of(stdout);
    let mut outputs = StrMap::new();
    let mut cur: Vec<char> = Vec::new();
    let mut i: usize = 0;
    proof {
        assert(cs@.skip(0) =~= cs@);
        assert(Map::<Seq<char>, Seq<char>>::empty() =~= outputs@);
    }
    while i < cs.len()
        invariant
            i <= cs@.len(),
            cs@ == stdout@,
            outputs.wf(),
            apply_lines(outputs@, split_lines_rec(cs@.skip(i as int), cur@)) == parse_outputs_model(
                stdout@,
            ),
        decreases cs@.len() - i,
    {
        let ghost before = cs@.skip(i as int);
        let ghost cur0 = cur@;
        let c = cs[i];
        proof {
            assert(before.first() == c);
            assert(before.drop_first() =~= cs@.skip(i + 1));
        }
        if c == '\n' {
            if cur.len() > 0 && cur[cur.len() - 1] == '\r' {
                cur.pop();
                proof {
                    assert(cur@ =~= cur0.drop_last());
                    assert(cur@ =~= strip_cr(cur0));
                }
            } else {
                proof {
                    assert(cur@ =~= strip_cr(cur0));
                }
            }
            let ghost lines_rest = split_lines_rec(cs@.skip(i + 1), Seq::<char>::empty());
            proof {
                assert(split_lines_rec(before, cur0) == seq![strip_cr(cur0)] + lines_rest);
                let whole = seq![strip_cr(cur0)] + lines_rest;
                assert(whole.len() > 0);
                assert(whole.first() == strip_cr(cur0));
                assert(whole.drop_first() =~= lines_rest);
                assert(whole.first() == cur@);
            }
            process_line(&mut outputs, &cur);
            cur = Vec::new();
        } else {
            cur.push(c);
            proof {
                assert(cur@ == cur0.push(c));
                assert(split_lines_rec(before, cur0) == split_lines_rec(cs@.skip(i + 1), cur@));
            }
        }
        i = i + 1;
    }
    proof {
        assert(cs@.skip(i as int) =~= Seq::<char>::empty());
    }
    let ghost out0 = outputs@;
    let ghost tail_lines = split_lines_rec(Seq::<char>::empty(), cur@);
    proof {
        assert(apply_lines(out0, tail_lines) == parse_outputs_model(stdout@));
    }
    if cur.len() > 0 {
        proof {
            assert(tail_lines == seq![cur@]);
            assert(tail_lines.len() > 0);
            assert(tail_lines.first() == cur@);
            assert(tail_lines.drop_first() =~= Seq::<Seq<char>>::empty());
            assert(apply_lines(out0, tail_lines) == apply_lines(
                apply_line(out0, cur@),
                tail_lines.drop_first(),
            ));
            assert(apply_lines(apply_line(out0, cur@), Seq::<Seq<char>>::empty()) == apply_line(
                out0,
                cur@,
            ));
        }
        process_line(&mut outputs, &cur);
        proof {
            assert(outputs@ == apply_line(out0, cur@));
        }
    } else {
        proof {
            assert(tail_lines == Seq::<Seq<char>>::empty());
            assert(apply_lines(out0, tail_lines) == out0);
        }
    }
    outputs
}

} // verus!
