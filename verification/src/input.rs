//! The line editor's buffer: a text and a cursor that always sits on a
//! character boundary, with readline-style editing and word motion.
use vstd::prelude::*;
use crate::text::{
    back_over_word, back_over_ws, byte_len, byte_offset, char_index_at_or_before, char_width,
    chars_string, extend_chars, floor_index, forward_over_word, forward_over_ws, is_boundary,
    lemma_byte_len_concat, lemma_byte_len_push, lemma_byte_offset_full, lemma_byte_offset_mono,
    lemma_byte_offset_step, lemma_floor_index, lemma_len_le_byte_len, prefix_byte_len, str_chars, sub_chars,
    word_run_end, word_run_start, ws_run_end, ws_run_start,
};

verus! {

/// Start of the word before character index `k`: skip whitespace
/// backwards, then the word.
pub open spec fn prev_word_start(s: Seq<char>, k: int) -> int {
    word_run_start(s, ws_run_start(s, k))
}

/// Start of the next word after character index `k`: skip the rest of the
/// current word, then the whitespace after it.
pub open spec fn next_word_start(s: Seq<char>, k: int) -> int {
    ws_run_end(s, word_run_end(s, k))
}

/// `s` with the characters `[i, j)` removed.
pub open spec fn cut(s: Seq<char>, i: int, j: int) -> Seq<char> {
    s.take(i) + s.skip(j)
}

/// `s` with `t` inserted at character index `k`.
pub open spec fn splice(s: Seq<char>, k: int, t: Seq<char>) -> Seq<char> {
    s.take(k) + t + s.skip(k)
}

/// Typing a character and deleting it with backspace gives back the text,
/// and the cursor returns to where it was.
pub proof fn insert_then_backspace_restores(s: Seq<char>, k: int, c: char)
    requires
        0 <= k <= s.len(),
    ensures
        cut(splice(s, k, seq![c]), (k + 1) - 1, k + 1) == s,
{
    assert(cut(splice(s, k, seq![c]), k, k + 1) =~= s);
}

/// Typing a character and deleting it with delete after moving left
/// gives back the text.
pub proof fn insert_then_delete_restores(s: Seq<char>, k: int, c: char)
    requires
        0 <= k <= s.len(),
    ensures
        cut(splice(s, k, seq![c]), k, k + 1) == s,
{
    assert(cut(splice(s, k, seq![c]), k, k + 1) =~= s);
}

/// Inserting text and then cutting out the same characters gives back the
/// text.
pub proof fn insert_then_cut_restores(s: Seq<char>, k: int, t: Seq<char>)
    requires
        0 <= k <= s.len(),
    ensures
        cut(splice(s, k, t), k, k + t.len()) == s,
        splice(s, k, t).len() == s.len() + t.len(),
{
    assert(cut(splice(s, k, t), k, k + t.len()) =~= s);
}

/// What deleting to the end keeps, followed by what deleting to the start
/// keeps, is the whole text.
pub proof fn cursor_splits_text(s: Seq<char>, k: int)
    requires
        0 <= k <= s.len(),
    ensures
        cut(s, k, s.len() as int) + cut(s, 0, k) == s,
{
    assert(cut(s, k, s.len() as int) + cut(s, 0, k) =~= s);
}

#[derive(Debug, PartialEq, Eq)]
pub struct InputBuffer {
    text: String,
    chars: Vec<char>,
    at: usize,
    cursor: usize,
}

impl InputBuffer {
    #[verifier::type_invariant]
    spec fn well_formed(self) -> bool {
        &&& self.text@ == self.chars@
        &&& self.at <= self.chars@.len()
        &&& byte_len(self.chars@) <= usize::MAX
        &&& self.cursor == byte_offset(self.chars@, self.at as int)
    }

    /// The characters of the buffer.
    pub closed spec fn content(self) -> Seq<char> {
        self.chars@
    }

    /// The cursor as a character index.
    pub closed spec fn index(self) -> int {
        self.at as int
    }

    /// The buffer's text and cursor index, for contracts.
    pub open spec fn model(self) -> (Seq<char>, int) {
        (self.content(), self.index())
    }

    fn build(chars: Vec<char>, at: usize) -> (r: Self)
        requires
            at <= chars@.len(),
            byte_len(chars@) <= usize::MAX,
        ensures
            r.content() == chars@,
            r.index() == at,
    {
        let text = chars_string(chars.as_slice());
        proof {
            lemma_byte_offset_mono(chars@, at as int, chars@.len() as int);
            lemma_byte_offset_full(chars@);
        }
        let cursor = prefix_byte_len(chars.as_slice(), at);
        InputBuffer { text, chars, at, cursor }
    }

    /// An empty buffer.
    pub fn new() -> (r: Self)
        ensures
            r.content() == Seq::<char>::empty(),
            r.index() == 0,
    {
        let v: Vec<char> = Vec::new();
        proof {
            assert(byte_len(v@) == 0);
        }
        Self::build(v, 0)
    }

    /// A buffer holding `text` with the cursor at its end.
    pub fn from(text: &str) -> (r: Self)
        ensures
            r.content() == text@,
            r.index() == text@.len(),
    {
        let v = str_chars(text);
        let n = v.len();
        Self::build(v, n)
    }

    pub fn as_str(&self) -> (r: &str)
        ensures
            r@ == self.content(),
            0 <= self.index() <= self.content().len(),
            byte_len(self.content()) <= usize::MAX,
    {
        proof {
            use_type_invariant(self);
        }
        self.text.as_str()
    }

    /// The cursor as a byte offset into the text.
    pub fn cursor(&self) -> (r: usize)
        ensures
            r == byte_offset(self.content(), self.index()),
            0 <= self.index() <= self.content().len(),
            byte_len(self.content()) <= usize::MAX,
    {
        proof {
            use_type_invariant(self);
        }
        self.cursor
    }

    pub fn is_empty(&self) -> (r: bool)
        ensures
            r == (self.content().len() == 0),
    {
        self.chars.len() == 0
    }

    pub fn clear(&mut self)
        ensures
            final(self).content() == Seq::<char>::empty(),
            final(self).index() == 0,
    {
        *self = Self::new();
    }

    /// Inserts `ch` at the cursor and moves the cursor past it.
    pub fn insert_char(&mut self, ch: char)
        requires
            byte_len(old(self).content()) + char_width(ch) <= usize::MAX,
        ensures
            final(self).content() == splice(old(self).content(), old(self).index(), seq![ch]),
            final(self).index() == old(self).index() + 1,
    {
        proof {
            use_type_invariant(&*self);
        }
        let mut v = sub_chars(self.chars.as_slice(), 0, self.at);
        v.push(ch);
        let rest = sub_chars(self.chars.as_slice(), self.at, self.chars.len());
        extend_chars(&mut v, rest.as_slice());
        proof {
            let s = self.chars@;
            let k = self.at as int;
            assert(s =~= s.take(k) + s.skip(k));
            lemma_byte_len_concat(s.take(k), s.skip(k));
            lemma_byte_len_push(s.take(k), ch);
            lemma_byte_len_concat(s.take(k).push(ch), s.skip(k));
            assert(v@ =~= splice(s, k, seq![ch]));
            lemma_len_le_byte_len(v@);
        }
        let at = self.at + 1;
        *self = Self::build(v, at);
    }

    /// Inserts `text` at the cursor and moves the cursor past it.
    pub fn insert_str(&mut self, text: &str)
        requires
            byte_len(old(self).content()) + byte_len(text@) <= usize::MAX,
        ensures
            final(self).content() == splice(old(self).content(), old(self).index(), text@),
            final(self).index() == old(self).index() + text@.len(),
    {
        proof {
            use_type_invariant(&*self);
        }
        let t = str_chars(text);
        let mut v = sub_chars(self.chars.as_slice(), 0, self.at);
        extend_chars(&mut v, t.as_slice());
        let rest = sub_chars(self.chars.as_slice(), self.at, self.chars.len());
        extend_chars(&mut v, rest.as_slice());
        proof {
            let s = self.chars@;
            let k = self.at as int;
            assert(s =~= s.take(k) + s.skip(k));
            lemma_byte_len_concat(s.take(k), s.skip(k));
            lemma_byte_len_concat(s.take(k), t@);
            lemma_byte_len_concat(s.take(k) + t@, s.skip(k));
            assert(v@ =~= splice(s, k, t@));
            assert(self.at + t@.len() <= v@.len());
            lemma_len_le_byte_len(v@);
        }
        let at = self.at + t.len();
        *self = Self::build(v, at);
    }

    fn remove_span(&mut self, i: usize, j: usize, at: usize)
        requires
            i <= j <= old(self).content().len(),
            at <= i,
        ensures
            final(self).content() == cut(old(self).content(), i as int, j as int),
            final(self).index() == at,
    {
        proof {
            use_type_invariant(&*self);
        }
        let mut v = sub_chars(self.chars.as_slice(), 0, i);
        let rest = sub_chars(self.chars.as_slice(), j, self.chars.len());
        extend_chars(&mut v, rest.as_slice());
        proof {
            let s = self.chars@;
            assert(s =~= s.take(i as int) + s.subrange(i as int, j as int) + s.skip(j as int));
            lemma_byte_len_concat(s.take(i as int) + s.subrange(i as int, j as int), s.skip(j as int));
            lemma_byte_len_concat(s.take(i as int), s.subrange(i as int, j as int));
            lemma_byte_len_concat(s.take(i as int), s.skip(j as int));
            assert(v@ =~= cut(s, i as int, j as int));
        }
        *self = Self::build(v, at);
    }

    /// Deletes the character before the cursor; `false` at the start.
    pub fn backspace(&mut self) -> (r: bool)
        ensures
            r == (old(self).index() > 0),
            r ==> final(self).content() == cut(
                old(self).content(),
                old(self).index() - 1,
                old(self).index(),
            ) && final(self).index() == old(self).index() - 1,
            !r ==> final(self).model() == old(self).model(),
    {
        proof {
            use_type_invariant(&*self);
        }
        if self.at == 0 {
            return false;
        }
        let k = self.at;
        self.remove_span(k - 1, k, k - 1);
        true
    }

    /// Deletes the character after the cursor; `false` at the end.
    pub fn delete(&mut self) -> (r: bool)
        ensures
            r == (old(self).index() < old(self).content().len()),
            r ==> final(self).content() == cut(
                old(self).content(),
                old(self).index(),
                old(self).index() + 1,
            ) && final(self).index() == old(self).index(),
            !r ==> final(self).model() == old(self).model(),
    {
        proof {
            use_type_invariant(&*self);
        }
        if self.at == self.chars.len() {
            return false;
        }
        let k = self.at;
        self.remove_span(k, k + 1, k);
        true
    }

    /// Deletes the bytes `[start, end)` and puts the cursor at `start`;
    /// `false`, with nothing changed, unless both are character boundaries
    /// and `start <= end`.
    pub fn drain_range(&mut self, start: usize, end: usize) -> (r: bool)
        ensures
            r == (start <= end && is_boundary(old(self).content(), start as int) && is_boundary(
                old(self).content(),
                end as int,
            )),
            r ==> final(self).content() == cut(
                old(self).content(),
                floor_index(old(self).content(), start as int),
                floor_index(old(self).content(), end as int),
            ) && final(self).index() == floor_index(old(self).content(), start as int)
                && byte_offset(old(self).content(), final(self).index()) == start,
            !r ==> final(self).model() == old(self).model(),
    {
        proof {
            use_type_invariant(&*self);
        }
        let v = self.chars.as_slice();
        let i = char_index_at_or_before(v, start);
        let j = char_index_at_or_before(v, end);
        let bi = prefix_byte_len(v, i);
        let bj = prefix_byte_len(v, j);
        let ghost s = self.chars@;
        if start > end || bi != start || bj != end {
            proof {
                if start <= end && is_boundary(s, start as int) && is_boundary(s, end as int) {
                    let i2 = choose|x: int| 0 <= x <= s.len() && byte_offset(s, x) == start;
                    let j2 = choose|x: int| 0 <= x <= s.len() && byte_offset(s, x) == end;
                    if i2 < s.len() {
                        lemma_byte_offset_step(s, i2);
                    }
                    if j2 < s.len() {
                        lemma_byte_offset_step(s, j2);
                    }
                    lemma_floor_index(s, start as int, i2);
                    lemma_floor_index(s, end as int, j2);
                }
            }
            return false;
        }
        proof {
            if i > j {
                lemma_byte_offset_mono(s, j as int, i as int);
            }
        }
        self.remove_span(i, j, i);
        true
    }

    /// Moves the cursor one character left; `false` at the start.
    pub fn move_left(&mut self) -> (r: bool)
        ensures
            r == (old(self).index() > 0),
            final(self).content() == old(self).content(),
            final(self).index() == if r {
                old(self).index() - 1
            } else {
                old(self).index()
            },
    {
        proof {
            use_type_invariant(&*self);
        }
        if self.at == 0 {
            return false;
        }
        let v = self.chars.clone();
        let at = self.at - 1;
        *self = Self::build(v, at);
        true
    }

    /// Moves the cursor one character right; `false` at the end.
    pub fn move_right(&mut self) -> (r: bool)
        ensures
            r == (old(self).index() < old(self).content().len()),
            final(self).content() == old(self).content(),
            final(self).index() == if r {
                old(self).index() + 1
            } else {
                old(self).index()
            },
    {
        proof {
            use_type_invariant(&*self);
        }
        if self.at == self.chars.len() {
            return false;
        }
        let v = self.chars.clone();
        let at = self.at + 1;
        *self = Self::build(v, at);
        true
    }

    pub fn move_start(&mut self)
        ensures
            final(self).content() == old(self).content(),
            final(self).index() == 0,
    {
        proof {
            use_type_invariant(&*self);
        }
        let v = self.chars.clone();
        *self = Self::build(v, 0);
    }

    pub fn move_end(&mut self)
        ensures
            final(self).content() == old(self).content(),
            final(self).index() == old(self).content().len(),
    {
        proof {
            use_type_invariant(&*self);
        }
        let v = self.chars.clone();
        let n = v.len();
        *self = Self::build(v, n);
    }

    /// Deletes everything before the cursor.
    pub fn delete_to_start(&mut self)
        ensures
            final(self).content() == old(self).content().skip(old(self).index()),
            final(self).index() == 0,
    {
        proof {
            use_type_invariant(&*self);
        }
        let k = self.at;
        self.remove_span(0, k, 0);
        proof {
            assert(cut(old(self).content(), 0, k as int) =~= old(self).content().skip(k as int));
        }
    }

    /// Deletes everything after the cursor.
    pub fn delete_to_end(&mut self)
        ensures
            final(self).content() == old(self).content().take(old(self).index()),
            final(self).index() == old(self).index(),
    {
        proof {
            use_type_invariant(&*self);
        }
        let k = self.at;
        let n = self.chars.len();
        self.remove_span(k, n, k);
        proof {
            assert(cut(old(self).content(), k as int, n as int) =~= old(self).content().take(
                k as int,
            ));
        }
    }

    /// Deletes the word before the cursor together with the whitespace
    /// between it and the cursor; `false` at the start.
    pub fn delete_previous_word(&mut self) -> (r: bool)
        ensures
            r == (old(self).index() > 0),
            r ==> final(self).content() == cut(
                old(self).content(),
                prev_word_start(old(self).content(), old(self).index()),
                old(self).index(),
            ) && final(self).index() == prev_word_start(old(self).content(), old(self).index()),
            !r ==> final(self).model() == old(self).model(),
    {
        proof {
            use_type_invariant(&*self);
        }
        if self.at == 0 {
            return false;
        }
        let k = self.at;
        let a = back_over_ws(self.chars.as_slice(), k);
        let b = back_over_word(self.chars.as_slice(), a);
        self.remove_span(b, k, b);
        true
    }

    /// Moves the cursor to the start of the previous word; `false` at the
    /// start.
    pub fn move_previous_word(&mut self) -> (r: bool)
        ensures
            r == (old(self).index() > 0),
            final(self).content() == old(self).content(),
            final(self).index() == if r {
                prev_word_start(old(self).content(), old(self).index())
            } else {
                old(self).index()
            },
    {
        proof {
            use_type_invariant(&*self);
        }
        if self.at == 0 {
            return false;
        }
        let a = back_over_ws(self.chars.as_slice(), self.at);
        let b = back_over_word(self.chars.as_slice(), a);
        let v = self.chars.clone();
        *self = Self::build(v, b);
        true
    }

    /// Moves the cursor past the rest of the current word and the
    /// whitespace after it; `false` at the end.
    pub fn move_next_word(&mut self) -> (r: bool)
        ensures
            r == (old(self).index() < old(self).content().len()),
            final(self).content() == old(self).content(),
            final(self).index() == if r {
                next_word_start(old(self).content(), old(self).index())
            } else {
                old(self).index()
            },
    {
        proof {
            use_type_invariant(&*self);
        }
        if self.at == self.chars.len() {
            return false;
        }
        let a = forward_over_word(self.chars.as_slice(), self.at);
        let b = forward_over_ws(self.chars.as_slice(), a);
        let v = self.chars.clone();
        *self = Self::build(v, b);
        true
    }
}

impl Clone for InputBuffer {
    fn clone(&self) -> (r: Self)
        ensures
            r.model() == self.model(),
    {
        proof {
            use_type_invariant(self);
        }
        let v = sub_chars(self.chars.as_slice(), 0, self.chars.len());
        proof {
            assert(v@ =~= self.chars@);
        }
        Self::build(v, self.at)
    }
}

impl Default for InputBuffer {
    fn default() -> (r: Self)
        ensures
            r.content() == Seq::<char>::empty(),
            r.index() == 0,
    {
        Self::new()
    }
}

} // verus!
