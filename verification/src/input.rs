//! A UTF-8-safe input buffer. Cursor offsets are always character boundaries.
use crate::text;
use crate::text::{chars_of, is_white_space, len_bytes, split_bytes, string_of};
use vstd::prelude::*;
use vstd::string::*;

verus! {

/// A line editor: its text and the cursor, a byte offset into the text.
#[derive(Debug)]
pub struct Input {
    pub text: String,
    pub cursor: usize,
}

impl Default for Input {
    fn default() -> (r: Input)
        ensures
            r.wf(),
            r.text@.len() == 0,
            r.cursor == 0,
            r.at() == 0,
    {
        let r = Input { text: String::new(), cursor: 0 };
        proof {
            text::lemma_offset_ends(r.text@);
            text::lemma_index_unique(r.text@, 0);
        }
        r
    }
}

/// Where the white space that ends at `k` starts.
pub open spec fn back_over_white(s: Seq<char>, k: int) -> int
    decreases k,
{
    if 0 < k <= s.len() && text::white(s[k - 1]) {
        back_over_white(s, k - 1)
    } else {
        k
    }
}

/// Where the word that ends at `k` starts.
pub open spec fn back_over_word(s: Seq<char>, k: int) -> int
    decreases k,
{
    if 0 < k <= s.len() && !text::white(s[k - 1]) {
        back_over_word(s, k - 1)
    } else {
        k
    }
}

/// Where the white space that starts at `k` ends.
pub open spec fn over_white(s: Seq<char>, k: int) -> int
    decreases s.len() - k,
{
    if 0 <= k < s.len() && text::white(s[k]) {
        over_white(s, k + 1)
    } else {
        k
    }
}

/// Where the word that starts at `k` ends.
pub open spec fn over_word(s: Seq<char>, k: int) -> int
    decreases s.len() - k,
{
    if 0 <= k < s.len() && !text::white(s[k]) {
        over_word(s, k + 1)
    } else {
        k
    }
}

/// Start of the word before `k`, white space between them skipped.
pub open spec fn word_start(s: Seq<char>, k: int) -> int {
    back_over_word(s, back_over_white(s, k))
}

/// End of the word after `k`, white space between them skipped.
pub open spec fn word_end(s: Seq<char>, k: int) -> int {
    over_word(s, over_white(s, k))
}

/// Start of the line that holds `k`.
pub open spec fn line_start(s: Seq<char>, k: int) -> int
    decreases k,
{
    if 0 < k <= s.len() && s[k - 1] != '\n' {
        line_start(s, k - 1)
    } else {
        k
    }
}

/// End of the line that holds `k`.
pub open spec fn line_end(s: Seq<char>, k: int) -> int
    decreases s.len() - k,
{
    if 0 <= k < s.len() && s[k] != '\n' {
        line_end(s, k + 1)
    } else {
        k
    }
}

impl Input {
    /// The cursor is a character boundary.
    pub open spec fn wf(self) -> bool {
        text::on_boundary(self.text@, self.cursor as int)
    }

    /// Characters before the cursor.
    pub open spec fn at(self) -> int {
        text::index_at(self.text@, self.cursor as int)
    }

    /// The editor holds `s` with the cursor behind its first `k` characters.
    pub open spec fn is(self, s: Seq<char>, k: int) -> bool {
        &&& self.wf()
        &&& self.text@ == s
        &&& self.at() == k
        &&& 0 <= k <= s.len()
        &&& self.cursor == text::offset(s, k)
    }

    /// The characters before the cursor, as a number.
    fn position(&self) -> (r: usize)
        requires
            self.wf(),
        ensures
            r == self.at(),
            0 <= r <= self.text@.len(),
    {
        let (before, _) = split_bytes(self.text.as_str(), self.cursor);
        let v = chars_of(before);
        v.len()
    }

    /// Put the cursor behind the first `k` characters.
    fn move_to(&mut self, v: &Vec<char>, k: usize)
        requires
            v@ == old(self).text@,
            k <= v@.len(),
        ensures
            final(self).is(old(self).text@, k as int),
            final(self).text == old(self).text,
    {
        let before = string_of(v, 0, k);
        self.cursor = len_bytes(before.as_str());
        proof {
            assert(before@ =~= v@.take(k as int));
            text::lemma_index_unique(v@, k as int);
        }
    }

    /// Take the characters from `from` up to `to` out and put the cursor there.
    fn cut(&mut self, v: &Vec<char>, from: usize, to: usize)
        requires
            v@ == old(self).text@,
            from <= to <= v@.len(),
        ensures
            final(self).is(
                old(self).text@.take(from as int) + old(self).text@.skip(to as int),
                from as int,
            ),
    {
        let before = string_of(v, 0, from);
        let after = string_of(v, to, v.len());
        let cursor: usize = len_bytes(before.as_str());
        let mut joined = before;
        joined.append(after.as_str());
        proof {
            let s = v@.take(from as int) + v@.skip(to as int);
            assert(joined@ =~= s);
            assert(s.take(from as int) =~= v@.take(from as int));
            text::lemma_index_unique(s, from as int);
        }
        self.text = joined;
        self.cursor = cursor;
    }

    /// Insert text at the cursor, which moves behind it.
    pub fn insert(&mut self, text: &str)
        requires
            old(self).wf(),
        ensures
            final(self).is(
                old(self).text@.take(old(self).at()) + text@ + old(self).text@.skip(old(self).at()),
                old(self).at() + text@.len(),
            ),
    {
        let (before, after) = split_bytes(self.text.as_str(), self.cursor);
        let mut joined = before.to_owned();
        joined.append(text);
        let cursor: usize = len_bytes(joined.as_str());
        let ghost front = joined@;
        let tail = after.to_owned();
        joined.append(tail.as_str());
        proof {
            let k = front.len() as int;
            assert(joined@.take(k) =~= front);
            text::lemma_index_unique(joined@, k);
        }
        self.text = joined;
        self.cursor = cursor;
    }

    /// Move one character to the left.
    pub fn left(&mut self)
        requires
            old(self).wf(),
        ensures
            final(self).text == old(self).text,
            final(self).is(
                old(self).text@,
                if old(self).at() > 0 {
                    old(self).at() - 1
                } else {
                    0
                },
            ),
    {
        let k: usize = self.position();
        let v = chars_of(self.text.as_str());
        self.move_to(
            &v,
            if k > 0 {
                k - 1
            } else {
                0
            },
        );
    }

    /// Move one character to the right.
    pub fn right(&mut self)
        requires
            old(self).wf(),
        ensures
            final(self).text == old(self).text,
            final(self).is(
                old(self).text@,
                if old(self).at() < old(self).text@.len() {
                    old(self).at() + 1
                } else {
                    old(self).at()
                },
            ),
    {
        let k: usize = self.position();
        let v = chars_of(self.text.as_str());
        self.move_to(
            &v,
            if k < v.len() {
                k + 1
            } else {
                k
            },
        );
    }

    /// Delete the character before the cursor.
    pub fn backspace(&mut self)
        requires
            old(self).wf(),
        ensures
            ({
                let s = old(self).text@;
                let k = old(self).at();
                if k > 0 {
                    final(self).is(s.take(k - 1) + s.skip(k), k - 1)
                } else {
                    final(self).is(s, 0)
                }
            }),
    {
        let k: usize = self.position();
        let v = chars_of(self.text.as_str());
        let from: usize = if k > 0 {
            k - 1
        } else {
            0
        };
        self.cut(&v, from, k);
        assert(v@.take(0) + v@.skip(0) =~= v@);
    }

    /// Delete the character after the cursor.
    pub fn delete(&mut self)
        requires
            old(self).wf(),
        ensures
            ({
                let s = old(self).text@;
                let k = old(self).at();
                if k < s.len() {
                    final(self).is(s.take(k) + s.skip(k + 1), k)
                } else {
                    final(self).is(s, k)
                }
            }),
    {
        let k: usize = self.position();
        let v = chars_of(self.text.as_str());
        let to: usize = if k < v.len() {
            k + 1
        } else {
            k
        };
        self.cut(&v, k, to);
        assert(v@.take(k as int) + v@.skip(k as int) =~= v@);
    }

    /// Start of the word before the cursor.
    fn previous_word(&self, v: &Vec<char>, k: usize) -> (r: usize)
        requires
            k <= v@.len(),
        ensures
            r == word_start(v@, k as int),
            r <= k,
    {
        let mut i: usize = k;
        while i > 0 && is_white_space(v[i - 1])
            invariant
                i <= k <= v@.len(),
                back_over_white(v@, k as int) == back_over_white(v@, i as int),
            decreases i,
        {
            i -= 1;
        }
        let ghost j = i as int;
        while i > 0 && !is_white_space(v[i - 1])
            invariant
                i <= j <= k <= v@.len(),
                back_over_word(v@, j) == back_over_word(v@, i as int),
            decreases i,
        {
            i -= 1;
        }
        i
    }

    /// Delete from the start of the word before the cursor.
    pub fn delete_word_backward(&mut self)
        requires
            old(self).wf(),
        ensures
            ({
                let s = old(self).text@;
                let k = old(self).at();
                final(self).is(s.take(word_start(s, k)) + s.skip(k), word_start(s, k))
            }),
    {
        let k: usize = self.position();
        let v = chars_of(self.text.as_str());
        let from: usize = self.previous_word(&v, k);
        self.cut(&v, from, k);
    }

    /// Move to the start of the word before the cursor.
    pub fn word_left(&mut self)
        requires
            old(self).wf(),
        ensures
            final(self).text == old(self).text,
            final(self).is(old(self).text@, word_start(old(self).text@, old(self).at())),
    {
        let k: usize = self.position();
        let v = chars_of(self.text.as_str());
        let to: usize = self.previous_word(&v, k);
        self.move_to(&v, to);
    }

    /// Move to the end of the word after the cursor.
    pub fn word_right(&mut self)
        requires
            old(self).wf(),
        ensures
            final(self).text == old(self).text,
            final(self).is(old(self).text@, word_end(old(self).text@, old(self).at())),
    {
        let k: usize = self.position();
        let v = chars_of(self.text.as_str());
        let mut i: usize = k;
        while i < v.len() && is_white_space(v[i])
            invariant
                k <= i <= v@.len(),
                over_white(v@, k as int) == over_white(v@, i as int),
            decreases v@.len() - i,
        {
            i += 1;
        }
        let ghost j = i as int;
        while i < v.len() && !is_white_space(v[i])
            invariant
                j <= i <= v@.len(),
                over_word(v@, j) == over_word(v@, i as int),
            decreases v@.len() - i,
        {
            i += 1;
        }
        self.move_to(&v, i);
    }

    /// Move to the start of the line.
    pub fn home(&mut self)
        requires
            old(self).wf(),
        ensures
            final(self).text == old(self).text,
            final(self).is(old(self).text@, line_start(old(self).text@, old(self).at())),
    {
        let k: usize = self.position();
        let v = chars_of(self.text.as_str());
        let mut i: usize = k;
        while i > 0 && v[i - 1] != '\n'
            invariant
                i <= k <= v@.len(),
                line_start(v@, k as int) == line_start(v@, i as int),
            decreases i,
        {
            i -= 1;
        }
        self.move_to(&v, i);
    }

    /// Move to the end of the line.
    pub fn end(&mut self)
        requires
            old(self).wf(),
        ensures
            final(self).text == old(self).text,
            final(self).is(old(self).text@, line_end(old(self).text@, old(self).at())),
    {
        let k: usize = self.position();
        let v = chars_of(self.text.as_str());
        let mut i: usize = k;
        while i < v.len() && v[i] != '\n'
            invariant
                k <= i <= v@.len(),
                line_end(v@, k as int) == line_end(v@, i as int),
            decreases v@.len() - i,
        {
            i += 1;
        }
        self.move_to(&v, i);
    }

    /// Move to the very start of the text.
    pub fn to_start(&mut self)
        ensures
            final(self).text == old(self).text,
            final(self).is(old(self).text@, 0),
    {
        let v = chars_of(self.text.as_str());
        self.move_to(&v, 0);
    }

    /// Move to the very end of the text.
    pub fn to_end(&mut self)
        ensures
            final(self).text == old(self).text,
            final(self).is(old(self).text@, old(self).text@.len() as int),
    {
        let v = chars_of(self.text.as_str());
        let n: usize = v.len();
        self.move_to(&v, n);
    }

    /// Replace the text; the cursor goes to its end.
    pub fn set(&mut self, text: String)
        ensures
            final(self).text == text,
            final(self).is(text@, text@.len() as int),
    {
        self.text = text;
        self.to_end();
    }

    /// Take the text out and leave the editor empty.
    pub fn take(&mut self) -> (r: String)
        ensures
            r@ == old(self).text@,
            final(self).is(Seq::empty(), 0),
            final(self).cursor == 0,
    {
        let out = self.text.clone();
        self.text = String::new();
        self.cursor = 0;
        proof {
            text::lemma_offset_ends(self.text@);
            text::lemma_index_unique(self.text@, 0);
        }
        out
    }

    /// The text before the cursor.
    pub fn before(&self) -> (r: String)
        requires
            self.wf(),
        ensures
            r@ == self.text@.take(self.at()),
    {
        let (before, _) = split_bytes(self.text.as_str(), self.cursor);
        before.to_owned()
    }
}

/// The cursor position is a number of characters within the text.
pub proof fn lemma_at_bounds(i: Input)
    requires
        i.wf(),
    ensures
        0 <= i.at() <= i.text@.len(),
        i.cursor == text::offset(i.text@, i.at()),
        i.is(i.text@, i.at()),
{
}

/// Two editors with the same text and position have the same cursor.
pub proof fn law_cursor_is_determined(a: Input, b: Input, s: Seq<char>, k: int)
    requires
        a.is(s, k),
        b.is(s, k),
    ensures
        a.cursor == b.cursor,
{
}

/// A word jump to the left never passes the start and never moves right, and
/// it stops at the start of a word: white space or the start of the text is
/// before it.
pub proof fn law_word_start(s: Seq<char>, k: int)
    requires
        0 <= k <= s.len(),
    ensures
        0 <= word_start(s, k) <= k,
        word_start(s, k) > 0 ==> text::white(s[word_start(s, k) - 1]),
        forall|i: int|
            word_start(s, k) <= i < back_over_white(s, k) ==> !text::white(#[trigger] s[i]),
        forall|i: int| back_over_white(s, k) <= i < k ==> text::white(#[trigger] s[i]),
{
    lemma_back_white(s, k);
    let j = back_over_white(s, k);
    lemma_back_word(s, j);
}

proof fn lemma_back_white(s: Seq<char>, k: int)
    requires
        0 <= k <= s.len(),
    ensures
        0 <= back_over_white(s, k) <= k,
        forall|i: int| back_over_white(s, k) <= i < k ==> text::white(#[trigger] s[i]),
    decreases k,
{
    if 0 < k && text::white(s[k - 1]) {
        lemma_back_white(s, k - 1);
    }
}

proof fn lemma_back_word(s: Seq<char>, k: int)
    requires
        0 <= k <= s.len(),
    ensures
        0 <= back_over_word(s, k) <= k,
        forall|i: int| back_over_word(s, k) <= i < k ==> !text::white(#[trigger] s[i]),
        back_over_word(s, k) > 0 ==> text::white(s[back_over_word(s, k) - 1]),
    decreases k,
{
    if 0 < k && !text::white(s[k - 1]) {
        lemma_back_word(s, k - 1);
    }
}

/// A word jump to the right never moves left, never passes the end, and stops
/// at the end of a word.
pub proof fn law_word_end(s: Seq<char>, k: int)
    requires
        0 <= k <= s.len(),
    ensures
        k <= word_end(s, k) <= s.len(),
        word_end(s, k) < s.len() ==> text::white(s[word_end(s, k)]),
{
    lemma_over_white(s, k);
    lemma_over_word(s, over_white(s, k));
}

proof fn lemma_over_white(s: Seq<char>, k: int)
    requires
        0 <= k <= s.len(),
    ensures
        k <= over_white(s, k) <= s.len(),
    decreases s.len() - k,
{
    if k < s.len() && text::white(s[k]) {
        lemma_over_white(s, k + 1);
    }
}

proof fn lemma_over_word(s: Seq<char>, k: int)
    requires
        0 <= k <= s.len(),
    ensures
        k <= over_word(s, k) <= s.len(),
        over_word(s, k) < s.len() ==> text::white(s[over_word(s, k)]),
    decreases s.len() - k,
{
    if k < s.len() && !text::white(s[k]) {
        lemma_over_word(s, k + 1);
    }
}

/// Deleting backwards what was just inserted gives the text and the position
/// back: inserting one character and a backspace undo each other.
pub proof fn law_backspace_undoes_insert(s: Seq<char>, k: int, c: char)
    requires
        0 <= k <= s.len(),
    ensures
        ({
            let typed = s.take(k) + seq![c] + s.skip(k);
            typed.take(k + 1 - 1) + typed.skip(k + 1) == s
        }),
{
    let typed = s.take(k) + seq![c] + s.skip(k);
    assert(typed.take(k) + typed.skip(k + 1) =~= s);
}

} // verus!
