//! Greedy word wrap of forecast descriptions. The `printwrap` crate's `split`
//! does this job, but the package registry does not carry that crate, so the
//! wrap is written and proved here.

use vstd::prelude::*;
use crate::text::push_char;

verus! {

/// Splitting text at spaces, one character at a time: the words completed so
/// far, and the word being read.
pub open spec fn split_state(s: Seq<char>) -> (Seq<Seq<char>>, Seq<char>)
    decreases s.len(),
{
    if s.len() == 0 {
        (Seq::empty(), Seq::empty())
    } else {
        let (words, cur) = split_state(s.drop_last());
        let c = s.last();
        if c == ' ' {
            if cur.len() == 0 {
                (words, cur)
            } else {
                (words.push(cur), Seq::empty())
            }
        } else {
            (words, cur.push(c))
        }
    }
}

/// The words of a text: its maximal runs of characters other than the space.
pub open spec fn words_of(s: Seq<char>) -> Seq<Seq<char>> {
    let (words, cur) = split_state(s);
    if cur.len() == 0 {
        words
    } else {
        words.push(cur)
    }
}

/// Greedy filling, one word at a time: the finished lines, and the line being
/// filled. A word joins the current line when the line, a space and the word
/// fit in `width`; otherwise it starts a new line (a word wider than `width`
/// stands alone on its line).
pub open spec fn fill_state(words: Seq<Seq<char>>, width: nat) -> (Seq<Seq<char>>, Seq<char>)
    decreases words.len(),
{
    if words.len() == 0 {
        (Seq::empty(), Seq::empty())
    } else {
        let (lines, cur) = fill_state(words.drop_last(), width);
        let w = words.last();
        if cur.len() == 0 {
            (lines, w)
        } else if cur.len() + 1 + w.len() <= width {
            (lines, cur + seq![' '] + w)
        } else {
            (lines.push(cur), w)
        }
    }
}

/// The lines of the greedy word wrap of `s` at `width` characters.
pub open spec fn wrap_spec(s: Seq<char>, width: nat) -> Seq<Seq<char>> {
    let (lines, cur) = fill_state(words_of(s), width);
    if cur.len() == 0 {
        lines
    } else {
        lines.push(cur)
    }
}

/// The text of each string of a sequence.
pub open spec fn texts(v: Seq<String>) -> Seq<Seq<char>> {
    v.map_values(|s: String| s@)
}

/// Splits text into its words.
pub fn split_words(s: &str) -> (r: Vec<String>)
    ensures
        texts(r@) == words_of(s@),
{
    let n = s.unicode_len();
    let mut words: Vec<String> = Vec::new();
    let mut cur = String::new();
    let mut i: usize = 0;
    proof {
        assert(s@.take(0) =~= Seq::<char>::empty());
    }
    while i < n
        invariant
            n == s@.len(),
            i <= n,
            (texts(words@), cur@) == split_state(s@.take(i as int)),
        decreases n - i,
    {
        let c = s.get_char(i);
        proof {
            assert(s@.take(i + 1).drop_last() =~= s@.take(i as int));
        }
        if c == ' ' {
            if cur.unicode_len() > 0 {
                let done = cur;
                cur = String::new();
                words.push(done);
                proof {
                    assert(texts(words@) =~= split_state(s@.take(i + 1)).0);
                    assert(cur@ =~= split_state(s@.take(i + 1)).1);
                }
            }
        } else {
            push_char(&mut cur, c);
        }
        i = i + 1;
    }
    proof {
        assert(s@.take(n as int) =~= s@);
    }
    if cur.unicode_len() > 0 {
        words.push(cur);
        assert(texts(words@) =~= words_of(s@));
    }
    words
}

/// Wraps text greedily into lines of at most `width` characters (a single word
/// wider than that keeps a line of its own).
pub fn wrap(s: &str, width: usize) -> (r: Vec<String>)
    ensures
        texts(r@) == wrap_spec(s@, width as nat),
{
    let words = split_words(s);
    let ghost ws = words_of(s@);
    let mut lines: Vec<String> = Vec::new();
    let mut cur = String::new();
    let mut i: usize = 0;
    proof {
        assert(ws.take(0) =~= Seq::<Seq<char>>::empty());
    }
    while i < words.len()
        invariant
            texts(words@) == ws,
            i <= words.len(),
            (texts(lines@), cur@) == fill_state(ws.take(i as int), width as nat),
        decreases words.len() - i,
    {
        let w = words[i].as_str();
        proof {
            assert(ws.take(i + 1).drop_last() =~= ws.take(i as int));
            assert(ws[i as int] == words@[i as int]@);
            reveal_strlit(" ");
        }
        let cl = cur.unicode_len();
        let wl = w.unicode_len();
        if cl == 0 {
            cur = String::from_str(w);
        } else if width >= 1 && wl <= width - 1 && cl <= width - 1 - wl {
            cur.append(" ");
            cur.append(w);
            assert(cur@ =~= fill_state(ws.take(i + 1), width as nat).1);
        } else {
            let done = cur;
            cur = String::from_str(w);
            lines.push(done);
            assert(texts(lines@) =~= fill_state(ws.take(i + 1), width as nat).0);
        }
        i = i + 1;
    }
    proof {
        assert(ws.take(words.len() as int) =~= ws);
    }
    if cur.unicode_len() > 0 {
        lines.push(cur);
        assert(texts(lines@) =~= wrap_spec(s@, width as nat));
    }
    lines
}

} // verus!
