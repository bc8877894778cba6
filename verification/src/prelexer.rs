//! Translation phases 1 and 2: digraphs, trigraphs and line splices, with the
//! byte range of every translated character.
use crate::peek::{char_stream, next_char, peek_char, pending_chars};
use crate::spanned::{Location, Spanned};
use peekmore::PeekMoreIterator;
use std::vec::IntoIter;
use vstd::prelude::*;

verus! {

/// The characters of a string slice, in order.
pub(crate) fn str_chars(s: &str) -> (r: Vec<char>)
    ensures
        r@ == s@,
{
    broadcast use vstd::string::axiom_spec_iter;
    let mut v: Vec<char> = Vec::new();
    for c in iter: s.chars()
        invariant
            iter.seq() == s@,
            v@ == iter.seq().take(iter.index() as int),
    {
        v.push(c);
    }
    v
}

/// The number of bytes that `c` takes in UTF-8.
pub open spec fn utf8_len(c: char) -> nat {
    if (c as u32) < 0x80 {
        1
    } else if (c as u32) < 0x800 {
        2
    } else if (c as u32) < 0x10000 {
        3
    } else {
        4
    }
}

/// The number of bytes that `s` takes in UTF-8.
pub open spec fn utf8_bytes(s: Seq<char>) -> nat
    decreases s.len(),
{
    if s.len() == 0 {
        0
    } else {
        utf8_len(s[0]) + utf8_bytes(s.drop_first())
    }
}

/// `char::len_utf8`.
pub fn char_len_utf8(c: char) -> (r: usize)
    ensures
        r == utf8_len(c),
        1 <= r <= 4,
{
    let v = c as u32;
    if v < 0x80 {
        1
    } else if v < 0x800 {
        2
    } else if v < 0x10000 {
        3
    } else {
        4
    }
}

/// The character that the digraph `a b` stands for.
pub open spec fn digraph(a: char, b: char) -> Option<char> {
    if a == '<' && b == ':' {
        Some('[')
    } else if a == ':' && b == '>' {
        Some(']')
    } else if a == '<' && b == '%' {
        Some('{')
    } else if a == '%' && b == '>' {
        Some('}')
    } else if a == '%' && b == ':' {
        Some('#')
    } else {
        None
    }
}

/// The character that the trigraph `? ? c` stands for.
pub open spec fn trigraph(c: char) -> Option<char> {
    match c {
        '=' => Some('#'),
        '/' => Some('\\'),
        '\'' => Some('^'),
        '(' => Some('['),
        ')' => Some(']'),
        '!' => Some('|'),
        '<' => Some('{'),
        '>' => Some('}'),
        '-' => Some('~'),
        _ => None,
    }
}

/// The first translated character of a non-empty `s`, and how many characters of `s` it covers:
/// a digraph first, then a trigraph on what that gave.
pub open spec fn translate_head(s: Seq<char>) -> (char, nat) {
    let (c1, k1) = if s.len() >= 2 && digraph(s[0], s[1]) is Some {
        (digraph(s[0], s[1])->0, 2nat)
    } else {
        (s[0], 1nat)
    };
    if c1 == '?' && s.len() > k1 + 1 && s[k1 as int] == '?' && trigraph(s[k1 + 1int]) is Some {
        (trigraph(s[k1 + 1int])->0, k1 + 2)
    } else {
        (c1, k1)
    }
}

/// Whether the head of `s` is a backslash that ends its line (a line splice).
pub open spec fn splices(s: Seq<char>) -> bool {
    let (c, k) = translate_head(s);
    c == '\\' && s.len() > k && s[k as int] == '\n'
}

/// The translated characters of `s`, whose first byte is at `pos` in file `file_id`.
pub open spec fn prelex_spec(s: Seq<char>, pos: nat, file_id: usize) -> Seq<Spanned<char>>
    decreases s.len(),
{
    if s.len() == 0 {
        seq![]
    } else {
        let (c, k) = translate_head(s);
        let len = utf8_bytes(s.take(k as int));
        if splices(s) {
            prelex_spec(s.skip(k + 1int), pos + len + 1, file_id)
        } else {
            seq![
                Spanned {
                    value: c,
                    location: Location {
                        range: core::ops::Range { start: pos as usize, end: (pos + len) as usize },
                        file_id,
                    },
                },
            ] + prelex_spec(s.skip(k as int), pos + len, file_id)
        }
    }
}

proof fn lemma_utf8_bytes_take(s: Seq<char>, k: int)
    requires
        0 <= k < s.len(),
    ensures
        utf8_bytes(s.take(k + 1)) == utf8_bytes(s.take(k)) + utf8_len(s[k]),
    decreases k,
{
    if k == 0 {
        assert(s.take(1).drop_first() =~= Seq::<char>::empty());
        assert(s.take(0) =~= Seq::<char>::empty());
        assert(utf8_bytes(Seq::<char>::empty()) == 0);
        assert(s.take(1)[0] == s[0]);
    } else {
        lemma_utf8_bytes_take(s.drop_first(), k - 1);
        assert(s.take(k + 1).drop_first() =~= s.drop_first().take(k));
        assert(s.take(k).drop_first() =~= s.drop_first().take(k - 1));
        assert(s.take(k + 1)[0] == s[0]);
        assert(s.take(k)[0] == s[0]);
        assert(s.drop_first()[k - 1] == s[k]);
    }
}

/// An iterator over the translated characters of a source text.
#[derive(Debug)]
pub struct PrelexerIter {
    file_id: usize,
    chars: PeekMoreIterator<IntoIter<char>>,
    /// The end of the previous character
    current_pos: usize,
}

impl PrelexerIter {
    /// The translated characters this iterator has still to hand out.
    pub closed spec fn remaining(&self) -> Seq<Spanned<char>> {
        prelex_spec(pending_chars(self.chars), self.current_pos as nat, self.file_id)
    }

    /// Its byte positions cannot overflow.
    pub closed spec fn well_formed(&self) -> bool {
        self.current_pos + 4 * pending_chars(self.chars).len() <= usize::MAX
    }

    /// The number of source characters this iterator has still to read.
    pub closed spec fn pending_len(&self) -> nat {
        pending_chars(self.chars).len()
    }

    pub fn new(file_id: usize, source: &str) -> (r: PrelexerIter)
        requires
            4 * source@.len() <= usize::MAX,
        ensures
            r.well_formed(),
            r.remaining() == prelex_spec(source@, 0, file_id),
    {
        PrelexerIter { file_id, chars: char_stream(str_chars(source)), current_pos: 0 }
    }

    /// The next translated character with its byte range: a digraph or trigraph becomes the
    /// character it stands for, and a backslash before a newline is skipped with the newline.
    pub fn next(&mut self) -> (r: Option<Spanned<char>>)
        requires
            old(self).well_formed(),
        ensures
            final(self).well_formed(),
            old(self).remaining() == match r {
                Some(c) => seq![c] + final(self).remaining(),
                None => Seq::<Spanned<char>>::empty(),
            },
            r is None ==> final(self).remaining().len() == 0,
            r is Some ==> final(self).pending_len() < old(self).pending_len(),
    {
        loop
            invariant
                self.well_formed(),
                self.file_id == old(self).file_id,
                self.remaining() == old(self).remaining(),
                self.pending_len() <= old(self).pending_len(),
            decreases self.pending_len(),
        {
            let ghost s = pending_chars(self.chars);
            let start = self.current_pos;
            let first = match next_char(&mut self.chars) {
                Some(c) => c,
                None => {
                    return None;
                },
            };
            let mut current_character = first;
            let mut length = char_len_utf8(first);
            let ghost mut k: int = 1;
            proof {
                lemma_utf8_bytes_take(s, 0);
                assert(s.take(0) =~= seq![]);
            }
            let p0 = peek_char(&mut self.chars, 0);
            let d = match p0 {
                Some(c) => {
                    let c = *c;
                    if first == '<' && c == ':' {
                        Some('[')
                    } else if first == ':' && c == '>' {
                        Some(']')
                    } else if first == '<' && c == '%' {
                        Some('{')
                    } else if first == '%' && c == '>' {
                        Some('}')
                    } else if first == '%' && c == ':' {
                        Some('#')
                    } else {
                        None
                    }
                },
                None => None,
            };
            if let Some(rep) = d {
                let second = next_char(&mut self.chars).unwrap();
                proof {
                    lemma_utf8_bytes_take(s, 1);
                    k = 2;
                }
                length = length + char_len_utf8(second);
                current_character = rep;
            }
            // Handle trigraphs
            if current_character == '?' {
                let q = peek_char(&mut self.chars, 0);
                let is_q = match q {
                    Some(c) => *c == '?',
                    None => false,
                };
                if is_q {
                    let t = peek_char(&mut self.chars, 1);
                    let replacement = match t {
                        Some(c) => match *c {
                            '=' => Some('#'),
                            '/' => Some('\\'),
                            '\'' => Some('^'),
                            '(' => Some('['),
                            ')' => Some(']'),
                            '!' => Some('|'),
                            '<' => Some('{'),
                            '>' => Some('}'),
                            '-' => Some('~'),
                            _ => None,
                        },
                        None => None,
                    };
                    if let Some(rep) = replacement {
                        let q2 = next_char(&mut self.chars).unwrap();
                        proof {
                            lemma_utf8_bytes_take(s, k);
                        }
                        length = length + char_len_utf8(q2);
                        let t2 = next_char(&mut self.chars).unwrap();
                        proof {
                            lemma_utf8_bytes_take(s, k + 1);
                            k = k + 2;
                        }
                        length = length + char_len_utf8(t2);
                        current_character = rep;
                    }
                }
            }
            assert(translate_head(s) == (current_character, k as nat));
            assert(pending_chars(self.chars) =~= s.skip(k));
            assert(length == utf8_bytes(s.take(k)));
            let nl = peek_char(&mut self.chars, 0);
            let is_nl = match nl {
                Some(c) => *c == '\n',
                None => false,
            };
            if current_character == '\\' && is_nl {
                let n = next_char(&mut self.chars).unwrap();
                assert(pending_chars(self.chars) =~= s.skip(k + 1));
                self.current_pos = start + length + 1;
            } else {
                self.current_pos = start + length;
                return Some(
                    Spanned::new(
                        Location { range: start..self.current_pos, file_id: self.file_id },
                        current_character,
                    ),
                );
            }
        }
    }
}

/// All translated characters of `source`, as file `file_id`.
pub fn prelex(file_id: usize, source: &str) -> (r: Vec<Spanned<char>>)
    requires
        4 * source@.len() <= usize::MAX,
    ensures
        r@ == prelex_spec(source@, 0, file_id),
{
    let mut it = PrelexerIter::new(file_id, source);
    let mut out: Vec<Spanned<char>> = Vec::new();
    loop
        invariant
            it.well_formed(),
            prelex_spec(source@, 0, file_id) == out@ + it.remaining(),
        decreases it.pending_len(),
    {
        match it.next() {
            Some(c) => {
                assert(out@.push(c) + it.remaining() =~= out@ + (seq![c] + it.remaining()));
                out.push(c);
            },
            None => {
                assert(out@ + it.remaining() =~= out@);
                return out;
            },
        }
    }
}

} // verus!
