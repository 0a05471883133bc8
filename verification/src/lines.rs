//! Splitting a text into lines and putting lines back together.
//!
//! A line ends at a line feed; a carriage return directly before that line
//! feed belongs to the terminator, not to the line.

use crate::text::{from_chars, slice};
use vstd::prelude::*;
use vstd::string::StringExecFns;

verus! {

/// The index of the first line feed in `s`, or `s.len()` when it has none.
pub open spec fn first_newline(s: Seq<char>) -> int
    decreases s.len(),
{
    if s.len() == 0 || s[0] == '\n' {
        0
    } else {
        1 + first_newline(s.drop_first())
    }
}

/// `s` without one trailing carriage return, if it has one.
pub open spec fn strip_cr(s: Seq<char>) -> Seq<char> {
    if s.len() > 0 && s.last() == '\r' {
        s.drop_last()
    } else {
        s
    }
}

/// The lines of `s`, without their terminators. A text that ends with a
/// line feed has no empty line after it.
pub open spec fn lines(s: Seq<char>) -> Seq<Seq<char>>
    decreases s.len(),
{
    if s.len() == 0 {
        seq![]
    } else {
        let k = first_newline(s);
        if 0 <= k < s.len() {
            seq![strip_cr(s.take(k))] + lines(s.skip(k + 1))
        } else {
            seq![s]
        }
    }
}

/// The pieces of `s` between its line feeds. A carriage return stays in
/// its piece, and a text that ends with a line feed has an empty piece at
/// the end.
pub open spec fn pieces(s: Seq<char>) -> Seq<Seq<char>>
    decreases s.len(),
{
    let k = first_newline(s);
    if 0 <= k < s.len() {
        seq![s.take(k)] + pieces(s.skip(k + 1))
    } else {
        seq![s]
    }
}

/// The lines put together, with `sep` between each two.
pub open spec fn join(parts: Seq<Seq<char>>, sep: Seq<char>) -> Seq<char>
    decreases parts.len(),
{
    if parts.len() == 0 {
        seq![]
    } else if parts.len() == 1 {
        parts[0]
    } else {
        parts[0] + sep + join(parts.drop_first(), sep)
    }
}

/// Whether `s` holds a carriage return directly followed by a line feed.
pub open spec fn has_crlf(s: Seq<char>) -> bool {
    exists|i: int| crlf_at(s, i)
}

/// Whether a carriage return and a line feed stand at `i` and `i + 1`.
pub open spec fn crlf_at(s: Seq<char>, i: int) -> bool {
    0 <= i && i + 1 < s.len() && s[i] == '\r' && s[i + 1] == '\n'
}

/// Whether `s` ends with a line feed.
pub open spec fn ends_with_newline(s: Seq<char>) -> bool {
    s.len() > 0 && s.last() == '\n'
}

/// The line terminator: carriage return and line feed, or line feed alone.
pub open spec fn separator(crlf: bool) -> Seq<char> {
    if crlf {
        seq!['\r', '\n']
    } else {
        seq!['\n']
    }
}

/// The text made of `parts` joined by `sep`, with `sep` once more at the end
/// when `terminated`.
pub open spec fn assemble(parts: Seq<Seq<char>>, sep: Seq<char>, terminated: bool) -> Seq<char> {
    if terminated {
        join(parts, sep) + sep
    } else {
        join(parts, sep)
    }
}

/// Whether every line of `s` that is terminated is terminated the same way:
/// by carriage return and line feed where `crlf`, by a line feed alone
/// otherwise.
pub open spec fn uniform_endings(s: Seq<char>, crlf: bool) -> bool {
    forall|k: int|
        #![trigger s[k]]
        0 <= k < s.len() && s[k] == '\n' ==> (crlf <==> (k > 0 && s[k - 1] == '\r'))
}

pub proof fn lemma_first_newline_bounds(s: Seq<char>)
    ensures
        0 <= first_newline(s) <= s.len(),
        first_newline(s) < s.len() ==> s[first_newline(s)] == '\n',
        forall|j: int| 0 <= j < first_newline(s) ==> s[j] != '\n',
    decreases s.len(),
{
    if s.len() == 0 || s[0] == '\n' {
    } else {
        let t = s.drop_first();
        lemma_first_newline_bounds(t);
        assert forall|j: int| 0 <= j < first_newline(s) implies s[j] != '\n' by {
            if j > 0 {
                assert(s[j] == t[j - 1]);
            }
        }
    }
}

/// The first line feed is where the scan finds it.
pub proof fn lemma_first_newline_is(s: Seq<char>, k: int)
    requires
        0 <= k <= s.len(),
        forall|j: int| 0 <= j < k ==> s[j] != '\n',
        k < s.len() ==> s[k] == '\n',
    ensures
        first_newline(s) == k,
{
    lemma_first_newline_bounds(s);
    let f = first_newline(s);
    if f < k {
        assert(s[f] == '\n');
    } else if f > k {
        assert(s[k] != '\n');
    }
}

pub proof fn lemma_join_push(parts: Seq<Seq<char>>, sep: Seq<char>, last: Seq<char>)
    ensures
        join(parts.push(last), sep) == if parts.len() == 0 {
            last
        } else {
            join(parts, sep) + sep + last
        },
    decreases parts.len(),
{
    let all = parts.push(last);
    if parts.len() == 0 {
        assert(all[0] == last);
    } else if parts.len() == 1 {
        assert(all.drop_first() =~= seq![last]);
        assert(join(all.drop_first(), sep) == last);
        assert(all[0] == parts[0]);
    } else {
        assert(all.drop_first() =~= parts.drop_first().push(last));
        lemma_join_push(parts.drop_first(), sep, last);
        assert(all[0] == parts[0]);
        assert(join(all, sep) =~= parts[0] + sep + (join(parts.drop_first(), sep) + sep + last));
        assert(join(parts, sep) + sep + last =~= parts[0] + sep + (join(parts.drop_first(), sep)
            + sep + last));
    }
}

pub proof fn lemma_lines_nonempty(s: Seq<char>)
    ensures
        lines(s).len() > 0 <==> s.len() > 0,
{
}

/// Splitting a text into lines and assembling them again gives the text
/// back, provided its lines all end the same way.
pub proof fn lemma_lines_roundtrip(s: Seq<char>, crlf: bool)
    requires
        uniform_endings(s, crlf),
    ensures
        assemble(lines(s), separator(crlf), ends_with_newline(s)) == s,
    decreases s.len(),
{
    let sep = separator(crlf);
    if s.len() == 0 {
        assert(join(lines(s), sep) =~= s);
    } else {
        lemma_first_newline_bounds(s);
        let k = first_newline(s);
        if k < s.len() {
            let rest = s.skip(k + 1);
            let head = strip_cr(s.take(k));
            assert(head + sep =~= s.take(k + 1)) by {
                if crlf {
                    assert(k > 0 && s[k - 1] == '\r');
                    assert(s.take(k).last() == '\r');
                } else {
                    assert(!(k > 0 && s[k - 1] == '\r'));
                    if k > 0 {
                        assert(s.take(k).last() == s[k - 1]);
                    }
                }
            }
            assert forall|j: int|
                #![trigger rest[j]]
                0 <= j < rest.len() && rest[j] == '\n' implies (crlf <==> (j > 0 && rest[j - 1]
                    == '\r')) by {
                assert(s[k + 1 + j] == '\n');
                if j == 0 {
                    assert(s[k + 1 + j - 1] == '\n');
                } else {
                    assert(rest[j - 1] == s[k + 1 + j - 1]);
                }
            }
            lemma_lines_roundtrip(rest, crlf);
            lemma_lines_nonempty(rest);
            let tail = lines(rest);
            let all = seq![head] + tail;
            assert(lines(s) == all);
            if rest.len() == 0 {
                assert(all =~= seq![head]);
                assert(ends_with_newline(s));
                assert(s.take(k + 1) =~= s);
            } else {
                assert(all.drop_first() =~= tail);
                assert(all[0] == head);
                assert(join(all, sep) == head + sep + join(tail, sep));
                assert(ends_with_newline(s) == ends_with_newline(rest)) by {
                    assert(s.last() == rest.last());
                }
                assert(s =~= s.take(k + 1) + rest);
                if ends_with_newline(s) {
                    assert(head + sep + join(tail, sep) + sep =~= (head + sep) + (join(tail, sep)
                        + sep));
                } else {
                    assert(head + sep + join(tail, sep) =~= (head + sep) + join(tail, sep));
                }
            }
        } else {
            assert(lines(s) =~= seq![s]);
            assert(s.last() != '\n');
        }
    }
}

/// The texts that a list of strings holds.
pub open spec fn texts(v: Seq<String>) -> Seq<Seq<char>> {
    v.map_values(|s: String| s@)
}

/// The lines of the text `v`, each as a string of its own.
pub fn split_lines(v: &Vec<char>) -> (r: Vec<String>)
    ensures
        texts(r@) == lines(v@),
{
    let mut out: Vec<String> = Vec::new();
    let mut start: usize = 0;
    let mut i: usize = 0;
    proof {
        assert(v@.skip(0) =~= v@);
        assert(texts(out@) + lines(v@) =~= lines(v@));
    }
    while i < v.len()
        invariant
            start <= i <= v.len(),
            forall|j: int| start <= j < i ==> v@[j] != '\n',
            lines(v@) == texts(out@) + lines(v@.skip(start as int)),
        decreases v.len() - i,
    {
        if v[i] == '\n' {
            let end: usize = if i > start && v[i - 1] == '\r' {
                i - 1
            } else {
                i
            };
            let line = from_chars(&slice(v, start, end));
            proof {
                let rest = v@.skip(start as int);
                lemma_first_newline_is(rest, i - start);
                assert(rest.take(i - start) =~= v@.subrange(start as int, i as int));
                assert(strip_cr(rest.take(i - start)) =~= v@.subrange(start as int, end as int));
                assert(rest.skip(i - start + 1) =~= v@.skip(i + 1));
                assert(texts(out@.push(line)) =~= texts(out@).push(line@));
                assert(texts(out@).push(line@) + lines(v@.skip(i + 1)) =~= texts(out@) + (seq![
                    line@,
                ] + lines(v@.skip(i + 1))));
            }
            out.push(line);
            start = i + 1;
        }
        i += 1;
    }
    if start < v.len() {
        let line = from_chars(&slice(v, start, v.len()));
        proof {
            let rest = v@.skip(start as int);
            lemma_first_newline_is(rest, rest.len() as int);
            assert(rest =~= v@.subrange(start as int, v@.len() as int));
            assert(texts(out@.push(line)) =~= texts(out@).push(line@));
            assert(texts(out@).push(line@) =~= texts(out@) + seq![line@]);
        }
        out.push(line);
    } else {
        assert(texts(out@) + lines(v@.skip(start as int)) =~= texts(out@));
    }
    out
}

/// The pieces of `v` between its line feeds.
pub fn split_pieces(v: &Vec<char>) -> (r: Vec<String>)
    ensures
        texts(r@) == pieces(v@),
{
    let mut out: Vec<String> = Vec::new();
    let mut start: usize = 0;
    let mut i: usize = 0;
    proof {
        assert(v@.skip(0) =~= v@);
        assert(texts(out@) + pieces(v@) =~= pieces(v@));
    }
    while i < v.len()
        invariant
            start <= i <= v.len(),
            forall|j: int| start <= j < i ==> v@[j] != '\n',
            pieces(v@) == texts(out@) + pieces(v@.skip(start as int)),
        decreases v.len() - i,
    {
        if v[i] == '\n' {
            let piece = from_chars(&slice(v, start, i));
            proof {
                let rest = v@.skip(start as int);
                lemma_first_newline_is(rest, i - start);
                assert(rest.take(i - start) =~= v@.subrange(start as int, i as int));
                assert(rest.skip(i - start + 1) =~= v@.skip(i + 1));
                assert(texts(out@.push(piece)) =~= texts(out@).push(piece@));
                assert(texts(out@).push(piece@) + pieces(v@.skip(i + 1)) =~= texts(out@) + (seq![
                    piece@,
                ] + pieces(v@.skip(i + 1))));
            }
            out.push(piece);
            start = i + 1;
        }
        i += 1;
    }
    let piece = from_chars(&slice(v, start, v.len()));
    proof {
        let rest = v@.skip(start as int);
        lemma_first_newline_is(rest, rest.len() as int);
        assert(rest =~= v@.subrange(start as int, v@.len() as int));
        assert(texts(out@.push(piece)) =~= texts(out@).push(piece@));
        assert(texts(out@).push(piece@) =~= texts(out@) + seq![piece@]);
    }
    out.push(piece);
    out
}

/// The strings of `parts` put together, with `sep` between each two.
pub fn join_lines(parts: &Vec<String>, sep: &str) -> (r: String)
    ensures
        r@ == join(texts(parts@), sep@),
{
    let mut out = String::new();
    let mut i: usize = 0;
    while i < parts.len()
        invariant
            i <= parts.len(),
            out@ == join(texts(parts@).take(i as int), sep@),
        decreases parts.len() - i,
    {
        proof {
            let done = texts(parts@).take(i as int);
            lemma_join_push(done, sep@, parts@[i as int]@);
            assert(texts(parts@).take(i + 1) =~= done.push(parts@[i as int]@));
        }
        if i > 0 {
            out.append(sep);
        }
        out.append(parts[i].as_str());
        i += 1;
    }
    assert(texts(parts@).take(parts@.len() as int) =~= texts(parts@));
    out
}

/// Whether the text `v` holds a carriage return directly followed by a line
/// feed.
pub fn contains_crlf(v: &Vec<char>) -> (r: bool)
    ensures
        r == has_crlf(v@),
{
    let mut i: usize = 0;
    while i < v.len() && i + 1 < v.len()
        invariant
            forall|j: int| 0 <= j < i ==> !crlf_at(v@, j),
        decreases v.len() - i,
    {
        if v[i] == '\r' && v[i + 1] == '\n' {
            assert(crlf_at(v@, i as int));
            return true;
        }
        i += 1;
    }
    false
}

} // verus!
