//! Splitting a label into words and packing the words into lines.

use vstd::prelude::*;
use crate::text::{append_chars, joined, seqs_of, string_of, views_of};

verus! {

/// The characters that separate words: space, tab, line feed, carriage
/// return, vertical tab and form feed.
pub open spec fn is_space(c: char) -> bool {
    c == ' ' || c == '\t' || c == '\n' || c == '\r' || c == '\x0b' || c == '\x0c'
}

/// Whether `c` separates words.
pub fn is_space_char(c: char) -> (b: bool)
    ensures
        b == is_space(c),
{
    c == ' ' || c == '\t' || c == '\n' || c == '\r' || c == '\x0b' || c == '\x0c'
}

/// Reading `s` left to right: the words that have ended, and the word that
/// the last character belongs to (empty after a separator).
pub open spec fn word_scan(s: Seq<char>) -> (Seq<Seq<char>>, Seq<char>)
    decreases s.len(),
{
    if s.len() == 0 {
        (Seq::empty(), Seq::empty())
    } else {
        let (done, cur) = word_scan(s.drop_last());
        let c = s.last();
        if !is_space(c) {
            (done, cur.push(c))
        } else if cur.len() > 0 {
            (done.push(cur), Seq::empty())
        } else {
            (done, cur)
        }
    }
}

/// The maximal runs of characters of `s` that hold no separator, in order.
pub open spec fn words(s: Seq<char>) -> Seq<Seq<char>> {
    let (done, cur) = word_scan(s);
    if cur.len() > 0 {
        done.push(cur)
    } else {
        done
    }
}

/// Packing `ws` greedily: the lines that are full, and the line that the
/// last word stands on. A word goes on the current line, behind one space,
/// if the line then holds at most `width` characters; otherwise it starts a
/// new line, however long it is.
pub open spec fn pack_scan(ws: Seq<Seq<char>>, width: nat) -> (Seq<Seq<char>>, Seq<char>)
    decreases ws.len(),
{
    if ws.len() == 0 {
        (Seq::empty(), Seq::empty())
    } else {
        let (done, cur) = pack_scan(ws.drop_last(), width);
        let word = ws.last();
        if ws.len() == 1 {
            (done, word)
        } else if cur.len() + 1 + word.len() <= width {
            (done, cur + seq![' '] + word)
        } else {
            (done.push(cur), word)
        }
    }
}

/// The lines that greedy packing of `ws` gives; none for no words.
pub open spec fn pack(ws: Seq<Seq<char>>, width: nat) -> Seq<Seq<char>> {
    if ws.len() == 0 {
        Seq::empty()
    } else {
        let (done, cur) = pack_scan(ws, width);
        done.push(cur)
    }
}

/// The display lines of a label: the lines as they are, or, with a width,
/// the words of the whole label packed into lines of that width. A label
/// that would have no line gets one empty line.
pub open spec fn shaped(lines: Seq<Seq<char>>, max_width: Option<usize>) -> Seq<Seq<char>> {
    let out = match max_width {
        None => lines,
        Some(w) => pack(words(joined(lines, seq!['\n'])), w as nat),
    };
    if out.len() == 0 {
        seq![Seq::empty()]
    } else {
        out
    }
}

/// A word: at least one character, none of them a separator.
pub open spec fn is_word(w: Seq<char>) -> bool {
    &&& w.len() > 0
    &&& forall|i: int| 0 <= i < w.len() ==> !is_space(#[trigger] w[i])
}

/// Every element of `ws` is a word.
pub open spec fn all_words(ws: Seq<Seq<char>>) -> bool {
    forall|i: int| 0 <= i < ws.len() ==> is_word(#[trigger] ws[i])
}

/// What `words` returns are words.
pub proof fn lemma_words_are_words(s: Seq<char>)
    ensures
        all_words(word_scan(s).0),
        forall|i: int| 0 <= i < word_scan(s).1.len() ==> !is_space(#[trigger] word_scan(s).1[i]),
        all_words(words(s)),
    decreases s.len(),
{
    if s.len() > 0 {
        lemma_words_are_words(s.drop_last());
    }
}

/// Reading on through characters that are no separators extends the word
/// in progress.
pub proof fn lemma_scan_word(t: Seq<char>, u: Seq<char>)
    requires
        forall|i: int| 0 <= i < u.len() ==> !is_space(#[trigger] u[i]),
    ensures
        word_scan(t + u) == (word_scan(t).0, word_scan(t).1 + u),
    decreases u.len(),
{
    if u.len() == 0 {
        assert(t + u =~= t);
        assert(word_scan(t).1 + u =~= word_scan(t).1);
    } else {
        lemma_scan_word(t, u.drop_last());
        assert((t + u).drop_last() =~= t + u.drop_last());
        assert((word_scan(t).1 + u.drop_last()).push(u.last()) =~= word_scan(t).1 + u);
    }
}

/// Reading on through one separator and a word ends the word in progress
/// and leaves the new word in progress.
pub proof fn lemma_scan_next_word(t: Seq<char>, sep: char, word: Seq<char>)
    requires
        is_space(sep),
        is_word(word),
        word_scan(t).1.len() > 0,
    ensures
        word_scan(t + seq![sep] + word) == (word_scan(t).0.push(word_scan(t).1), word),
{
    assert((t + seq![sep]).drop_last() =~= t);
    lemma_scan_word(t + seq![sep], word);
    assert(Seq::<char>::empty() + word =~= word);
}

/// Extending the last part extends the joined text.
pub proof fn lemma_joined_extend(done: Seq<Seq<char>>, x: Seq<char>, y: Seq<char>, sep: Seq<char>)
    ensures
        joined(done.push(x + y), sep) == joined(done.push(x), sep) + y,
{
    assert(done.push(x + y).drop_last() =~= done);
    assert(done.push(x).drop_last() =~= done);
    if done.len() == 0 {
    } else {
        assert(joined(done, sep) + sep + (x + y) =~= (joined(done, sep) + sep + x) + y);
    }
}

/// Reading the packed lines of a list of words, joined by line feeds, gives
/// the same words back: all but the last have ended, the last is in
/// progress.
pub proof fn lemma_pack_keeps_words(ws: Seq<Seq<char>>, width: nat)
    requires
        ws.len() > 0,
        all_words(ws),
    ensures
        word_scan(joined(pack(ws, width), seq!['\n'])) == (ws.drop_last(), ws.last()),
        words(joined(pack(ws, width), seq!['\n'])) == ws,
    decreases ws.len(),
{
    let sep = seq!['\n'];
    let word = ws.last();
    if ws.len() == 1 {
        assert(pack_scan(ws.drop_last(), width).0 =~= Seq::<Seq<char>>::empty());
        assert(pack_scan(ws, width).0 =~= Seq::<Seq<char>>::empty());
        assert(pack(ws, width) =~= seq![word]);
        lemma_scan_word(Seq::empty(), word);
        assert(Seq::<char>::empty() + word =~= word);
        assert(ws.drop_last() =~= Seq::<Seq<char>>::empty());
    } else {
        let prev = ws.drop_last();
        lemma_pack_keeps_words(prev, width);
        let (done, cur) = pack_scan(prev, width);
        let before = joined(done.push(cur), sep);
        assert(word_scan(before) == (prev.drop_last(), prev.last()));
        assert(prev.drop_last().push(prev.last()) =~= prev);
        if cur.len() + 1 + word.len() <= width {
            lemma_joined_extend(done, cur, seq![' '] + word, sep);
            assert(cur + seq![' '] + word =~= cur + (seq![' '] + word));
            assert(before + (seq![' '] + word) =~= before + seq![' '] + word);
            lemma_scan_next_word(before, ' ', word);
        } else {
            assert(done.push(cur).push(word).drop_last() =~= done.push(cur));
            lemma_scan_next_word(before, '\n', word);
        }
    }
    assert(ws.drop_last().push(ws.last()) =~= ws);
}

/// Wrapping is idempotent: wrapping the lines of a wrapped label again, at
/// the same width, gives the same lines.
pub proof fn lemma_wrap_idempotent(lines: Seq<Seq<char>>, width: usize)
    ensures
        shaped(shaped(lines, Some(width)), Some(width)) == shaped(lines, Some(width)),
{
    let sep = seq!['\n'];
    let ws = words(joined(lines, sep));
    lemma_words_are_words(joined(lines, sep));
    if ws.len() == 0 {
        let blank = seq![Seq::<char>::empty()];
        assert(shaped(lines, Some(width)) == blank);
        assert(joined(blank, sep) =~= Seq::<char>::empty());
    } else {
        lemma_pack_keeps_words(ws, width as nat);
    }
}

/// No line of a packed label is longer than `bound`, where `bound` is at
/// least the width and at least the length of every word. So where no word
/// is longer than the width, no line is.
pub proof fn lemma_pack_width(ws: Seq<Seq<char>>, width: nat, bound: nat)
    requires
        bound >= width,
        forall|i: int| 0 <= i < ws.len() ==> (#[trigger] ws[i]).len() <= bound,
    ensures
        forall|i: int| 0 <= i < pack(ws, width).len() ==> (#[trigger] pack(ws, width)[i]).len()
            <= bound,
    decreases ws.len(),
{
    lemma_pack_scan_width(ws, width, bound);
}

/// The same of the two halves of a packing in progress.
proof fn lemma_pack_scan_width(ws: Seq<Seq<char>>, width: nat, bound: nat)
    requires
        bound >= width,
        forall|i: int| 0 <= i < ws.len() ==> (#[trigger] ws[i]).len() <= bound,
    ensures
        pack_scan(ws, width).1.len() <= bound,
        forall|i: int|
            0 <= i < pack_scan(ws, width).0.len() ==> (#[trigger] pack_scan(ws, width).0[i]).len()
                <= bound,
    decreases ws.len(),
{
    if ws.len() > 0 {
        lemma_pack_scan_width(ws.drop_last(), width, bound);
    }
}

/// Splits `s` into its words.
pub fn split_words(s: &Vec<char>) -> (out: Vec<Vec<char>>)
    ensures
        seqs_of(out@) == words(s@),
{
    let mut done: Vec<Vec<char>> = Vec::new();
    let mut cur: Vec<char> = Vec::new();
    let n: usize = s.len();
    let mut i: usize = 0;
    while i < n
        invariant
            i <= n,
            n == s@.len(),
            (seqs_of(done@), cur@) == word_scan(s@.take(i as int)),
        decreases n - i,
    {
        proof {
            assert(s@.take(i + 1).drop_last() =~= s@.take(i as int));
        }
        let c = s[i];
        if !is_space_char(c) {
            cur.push(c);
        } else if cur.len() > 0 {
            proof {
                assert(seqs_of(done@.push(cur)) =~= seqs_of(done@).push(cur@));
            }
            done.push(cur);
            cur = Vec::new();
        }
        i += 1;
    }
    proof {
        assert(s@.take(n as int) =~= s@);
    }
    if cur.len() > 0 {
        proof {
            assert(seqs_of(done@.push(cur)) =~= seqs_of(done@).push(cur@));
        }
        done.push(cur);
    }
    done
}

/// Packs `ws` greedily into lines of at most `width` characters.
pub fn pack_words(ws: &Vec<Vec<char>>, width: usize) -> (out: Vec<Vec<char>>)
    ensures
        seqs_of(out@) == pack(seqs_of(ws@), width as nat),
{
    let mut done: Vec<Vec<char>> = Vec::new();
    let mut cur: Vec<char> = Vec::new();
    let n: usize = ws.len();
    let mut i: usize = 0;
    while i < n
        invariant
            i <= n,
            n == ws@.len(),
            (seqs_of(done@), cur@) == pack_scan(seqs_of(ws@).take(i as int), width as nat),
        decreases n - i,
    {
        proof {
            assert(seqs_of(ws@).take(i + 1).drop_last() =~= seqs_of(ws@).take(i as int));
        }
        let word = &ws[i];
        if i == 0 {
            cur = Vec::new();
            append_chars(&mut cur, word);
            proof {
                assert(cur@ =~= word@);
            }
        } else if cur.len() < width && word.len() <= width - cur.len() - 1 {
            cur.push(' ');
            append_chars(&mut cur, word);
        } else {
            proof {
                assert(seqs_of(done@.push(cur)) =~= seqs_of(done@).push(cur@));
            }
            done.push(cur);
            cur = Vec::new();
            append_chars(&mut cur, word);
            proof {
                assert(cur@ =~= word@);
            }
        }
        i += 1;
    }
    proof {
        assert(seqs_of(ws@).take(n as int) =~= seqs_of(ws@));
    }
    if n > 0 {
        proof {
            assert(seqs_of(done@.push(cur)) =~= seqs_of(done@).push(cur@));
        }
        done.push(cur);
    }
    done
}

/// Joins `lines` with a line feed between each two.
pub fn join_label(lines: &Vec<Vec<char>>) -> (out: Vec<char>)
    ensures
        out@ == joined(seqs_of(lines@), seq!['\n']),
{
    let mut out: Vec<char> = Vec::new();
    let n: usize = lines.len();
    let mut i: usize = 0;
    while i < n
        invariant
            i <= n,
            n == lines@.len(),
            out@ == joined(seqs_of(lines@).take(i as int), seq!['\n']),
        decreases n - i,
    {
        proof {
            assert(seqs_of(lines@).take(i + 1).drop_last() =~= seqs_of(lines@).take(i as int));
        }
        if i > 0 {
            out.push('\n');
            proof {
                assert(out@ =~= joined(seqs_of(lines@).take(i as int), seq!['\n']) + seq!['\n']);
            }
        }
        append_chars(&mut out, &lines[i]);
        i += 1;
    }
    proof {
        assert(seqs_of(lines@).take(n as int) =~= seqs_of(lines@));
    }
    out
}

/// The display lines of a label, as strings.
pub fn shape(lines: &Vec<Vec<char>>, max_width: Option<usize>) -> (out: Vec<String>)
    ensures
        views_of(out@) == shaped(seqs_of(lines@), max_width),
        out@.len() > 0,
{
    let mut out: Vec<String> = Vec::new();
    match max_width {
        None => {
            out = strings_of(lines);
        },
        Some(w) => {
            let label = join_label(lines);
            let ws = split_words(&label);
            let packed = pack_words(&ws, w);
            out = strings_of(&packed);
        },
    }
    if out.len() == 0 {
        out.push(String::new());
        proof {
            assert(views_of(out@) =~= seq![Seq::<char>::empty()]);
        }
    }
    out
}

/// Each character vector as a string.
pub fn strings_of(lines: &Vec<Vec<char>>) -> (out: Vec<String>)
    ensures
        views_of(out@) == seqs_of(lines@),
{
    let mut out: Vec<String> = Vec::new();
    let n: usize = lines.len();
    let mut i: usize = 0;
    while i < n
        invariant
            i <= n,
            n == lines@.len(),
            views_of(out@) == seqs_of(lines@).take(i as int),
        decreases n - i,
    {
        let line = string_of(&lines[i]);
        proof {
            assert(views_of(out@.push(line)) =~= seqs_of(lines@).take(i as int).push(lines@[i as int]@));
            assert(seqs_of(lines@).take(i + 1) =~= seqs_of(lines@).take(i as int).push(
                lines@[i as int]@,
            ));
        }
        out.push(line);
        i += 1;
    }
    proof {
        assert(seqs_of(lines@).take(n as int) =~= seqs_of(lines@));
    }
    out
}

} // verus!
