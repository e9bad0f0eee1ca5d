//! Splitting text into pieces: the guesses of a query and the lines of a word list.

use vstd::prelude::*;

verus! {

/// Relies on std's `String::push`: the character is appended at the end.
#[verifier::external_body]
pub(crate) fn push_char(s: &mut String, c: char)
    ensures
        final(s)@ == old(s)@.push(c),
{
    s.push(c)
}

/// The pieces of `t` between the characters for which `sep` holds, in order,
/// empty pieces included: one more piece than there are separators.
pub open spec fn pieces(t: Seq<char>, sep: spec_fn(char) -> bool) -> Seq<Seq<char>>
    decreases t.len(),
{
    if t.len() == 0 {
        seq![Seq::empty()]
    } else {
        let rest = pieces(t.drop_last(), sep);
        if sep(t.last()) {
            rest.push(Seq::empty())
        } else {
            rest.update(rest.len() - 1, rest.last().push(t.last()))
        }
    }
}

/// Holds of the characters in `seps`.
pub open spec fn one_of(seps: Seq<char>) -> spec_fn(char) -> bool {
    |c: char| seps.contains(c)
}

/// The views of a list of strings.
pub open spec fn views(v: Seq<String>) -> Seq<Seq<char>> {
    v.map_values(|w: String| w@)
}

proof fn lemma_pieces_nonempty(t: Seq<char>, sep: spec_fn(char) -> bool)
    ensures
        pieces(t, sep).len() >= 1,
    decreases t.len(),
{
    if t.len() > 0 {
        lemma_pieces_nonempty(t.drop_last(), sep);
    }
}

fn is_one_of(c: char, seps: &Vec<char>) -> (r: bool)
    ensures
        r == seps@.contains(c),
{
    let mut i: usize = 0;
    while i < seps.len()
        invariant
            i <= seps.len(),
            forall|j: int| 0 <= j < i ==> seps@[j] != c,
        decreases seps.len() - i,
    {
        if seps[i] == c {
            assert(seps@[i as int] == c);
            return true;
        }
        i = i + 1;
    }
    false
}

/// Splits `text` at every character of `seps`.
pub fn split_on(text: &str, seps: &Vec<char>) -> (r: Vec<String>)
    ensures
        views(r@) == pieces(text@, one_of(seps@)),
{
    
    let mut done: Vec<String> = Vec::new();
    let mut current = String::new();
    for c in it: text.chars()
        invariant
            it.seq() == text@,
            views(done@).push(current@) == pieces(text@.take(it.index() as int), one_of(seps@)),
    {
        let ghost k = it.index() as int;
        proof {
            assert(text@.take(k + 1).drop_last() =~= text@.take(k));
            assert(text@.take(k + 1).last() == c);
            lemma_pieces_nonempty(text@.take(k), one_of(seps@));
            let rest = pieces(text@.take(k), one_of(seps@));
            assert(pieces(text@.take(k + 1), one_of(seps@)) == if one_of(seps@)(c) {
                rest.push(Seq::empty())
            } else {
                rest.update(rest.len() - 1, rest.last().push(c))
            });
            assert(one_of(seps@)(c) == seps@.contains(c));
        }
        if is_one_of(c, seps) {
            let ghost before = views(done@);
            done.push(current);
            current = String::new();
            proof {
                assert(views(done@) =~= before.push(views(done@).last()));
                assert(views(done@).push(current@) =~= pieces(text@.take(k + 1), one_of(seps@)));
            }
        } else {
            push_char(&mut current, c);
            proof {
                assert(views(done@).push(current@) =~= pieces(text@.take(k + 1), one_of(seps@)));
            }
        }
    }
    proof {
        assert(text@.take(text@.len() as int) =~= text@);
    }
    let ghost before = views(done@);
    done.push(current);
    assert(views(done@) =~= before.push(current@));
    done
}

/// A line without the carriage return that ended it, if one did.
pub open spec fn strip_cr(w: Seq<char>) -> Seq<char> {
    if w.len() > 0 && w.last() == '\r' {
        w.drop_last()
    } else {
        w
    }
}

/// The lines of a text: the pieces between line feeds, each that a line feed
/// ends without a carriage return before it; a last piece after the final line
/// feed counts only when it is not empty.
pub open spec fn lines_of(t: Seq<char>) -> Seq<Seq<char>> {
    let p = pieces(t, one_of(seq!['\n']));
    let ended = p.drop_last().map_values(|w: Seq<char>| strip_cr(w));
    if p.last().len() == 0 {
        ended
    } else {
        ended.push(p.last())
    }
}

fn without_cr(w: &String) -> (r: String)
    ensures
        r@ == strip_cr(w@),
{
    let s = w.as_str();
    let n = s.unicode_len();
    if n > 0 && s.get_char(n - 1) == '\r' {
        s.substring_char(0, n - 1).to_owned()
    } else {
        w.clone()
    }
}

/// The words of a word list: one per line.
pub fn word_list(text: &str) -> (r: Vec<String>)
    ensures
        views(r@) == lines_of(text@),
{
    let line_end = vec!['\n'];
    let parts = split_on(text, &line_end);
    let ghost p = pieces(text@, one_of(seq!['\n']));
    proof {
        assert(line_end@ == seq!['\n']);
        lemma_pieces_nonempty(text@, one_of(seq!['\n']));
    }
    let last = parts.len() - 1;
    let mut r: Vec<String> = Vec::new();
    for i in 0..last
        invariant
            last == parts@.len() - 1,
            views(parts@) == p,
            views(r@) == p.take(i as int).map_values(|w: Seq<char>| strip_cr(w)),
    {
        let line = without_cr(&parts[i]);
        let ghost before = views(r@);
        r.push(line);
        proof {
            assert(views(r@) =~= before.push(line@));
            assert(p.take(i + 1).map_values(|w: Seq<char>| strip_cr(w)) =~= p.take(
                i as int,
            ).map_values(|w: Seq<char>| strip_cr(w)).push(strip_cr(p[i as int])));
            assert(views(r@) =~= p.take(i + 1).map_values(|w: Seq<char>| strip_cr(w)));
        }
    }
    proof {
        assert(p.take(last as int) =~= p.drop_last());
    }
    if parts[last].as_str().unicode_len() > 0 {
        let tail = parts[last].clone();
        let ghost before = views(r@);
        r.push(tail);
        proof {
            assert(views(r@) =~= before.push(p.last()));
        }
    }
    r
}

} // verus!
