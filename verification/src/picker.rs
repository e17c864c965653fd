//! Searchable model, agent, MCP and theme dialogs. Search keys are kept with
//! the choices; matching runs only after the query or the choices change.
use crate::input::Input;
use crate::model;
use crate::model::{KeyCode, KeyEvent, Theme};
use crate::text;
use crate::text::{chars_of, is_control_char, same, words_text};
use vstd::prelude::*;
use vstd::string::*;

verus! {

// ---------------------------------------------------------------------------
// Fuzzy matching
// ---------------------------------------------------------------------------

/// What `char::is_alphanumeric` says of a character.
pub uninterp spec fn alphanumeric(c: char) -> bool;

/// What `str::to_lowercase` makes of a string.
pub uninterp spec fn lowercase(s: Seq<char>) -> Seq<char>;

/// `char::is_alphanumeric`: whether a character is a letter or a number by the
/// Unicode tables. Nothing is said of it but that the character determines it.
pub assume_specification[ char::is_alphanumeric ](c: char) -> (r: bool)
    ensures
        r == alphanumeric(c),
;

/// `str::to_lowercase`: the lower-case form of a string by the Unicode tables.
/// Nothing is said of it but that the string determines it.
pub assume_specification[ str::to_lowercase ](s: &str) -> (r: String)
    ensures
        r@ == lowercase(s@),
;

/// How far a search word was found in a text: characters of the word found,
/// index of the last one (or -1), and the score so far.
pub struct Found {
    pub count: int,
    pub last: int,
    pub score: int,
}

/// Points for a match at index `i` when the last one was at `last`: a fixed
/// reward, more at the start of a word, much more right behind the last match,
/// less for every character skipped.
pub open spec fn points(s: Seq<char>, i: int, last: int) -> int {
    10 + (if i == 0 || !alphanumeric(s[i - 1]) {
        8int
    } else {
        0
    }) + (if last < 0 {
        -i
    } else if last + 1 == i {
        12
    } else {
        -(i - last - 1)
    })
}

/// The search after the first `n` characters of `s`: each character of the
/// word is found at the first place behind the one before.
pub open spec fn found(s: Seq<char>, word: Seq<char>, n: int) -> Found
    decreases n,
{
    if n <= 0 {
        Found { count: 0, last: -1, score: 0 }
    } else {
        let f = found(s, word, n - 1);
        if f.count < word.len() && word[f.count] == s[n - 1] {
            Found {
                count: f.count + 1,
                last: n - 1,
                score: f.score + points(s, n - 1, f.last),
            }
        } else {
            f
        }
    }
}

/// The score of one search word, `None` where it is not a subsequence.
pub open spec fn word_score(s: Seq<char>, word: Seq<char>) -> Option<int> {
    let f = found(s, word, s.len() as int);
    if f.count == word.len() {
        Some(f.score)
    } else {
        None
    }
}

/// The score of several search words: each has to be found.
pub open spec fn words_score(s: Seq<char>, words: Seq<Seq<char>>) -> Option<int>
    decreases words.len(),
{
    if words.len() == 0 {
        Some(0)
    } else {
        match (words_score(s, words.drop_last()), word_score(s, words.last())) {
            (Some(a), Some(b)) => Some(a + b),
            _ => None,
        }
    }
}

/// The score of a query against a text.
pub open spec fn fuzzy(s: Seq<char>, query: Seq<char>) -> Option<int> {
    words_score(s, text::words(query))
}

proof fn lemma_found_bounds(s: Seq<char>, word: Seq<char>, n: int)
    requires
        0 <= n <= s.len(),
    ensures
        0 <= found(s, word, n).count <= word.len(),
        found(s, word, n).count <= n,
        -1 <= found(s, word, n).last < n,
        found(s, word, n).last == -1 <==> found(s, word, n).count == 0,
        found(s, word, n).score <= 30 * found(s, word, n).count,
        found(s, word, n).score >= -(found(s, word, n).last + 1),
    decreases n,
{
    if n > 0 {
        lemma_found_bounds(s, word, n - 1);
    }
}

/// Once the word is found the search stays as it is.
proof fn lemma_found_stays(s: Seq<char>, word: Seq<char>, n: int, m: int)
    requires
        0 <= n <= m,
        found(s, word, n).count == word.len(),
    ensures
        found(s, word, m) == found(s, word, n),
    decreases m - n,
{
    if n < m {
        lemma_found_stays(s, word, n, m - 1);
    }
}

/// Characters that several words take.
spec fn total_len(words: Seq<Seq<char>>) -> nat
    decreases words.len(),
{
    if words.len() == 0 {
        0
    } else {
        total_len(words.drop_last()) + words.last().len()
    }
}

proof fn lemma_words_size(s: Seq<char>)
    ensures
        total_len(text::words(s)) <= s.len(),
        2 * text::words(s).len() <= s.len() + (if s.len() > 0 && !text::white(s.last()) {
            1int
        } else {
            0
        }),
        s.len() > 0 && !text::white(s.last()) ==> text::words(s).len() > 0,
    decreases s.len(),
{
    if s.len() > 0 {
        let p = s.drop_last();
        let w = text::words(p);
        lemma_words_size(p);
        if !text::white(s.last()) {
            if s.len() == 1 || text::white(s[s.len() - 2]) {
                let all = w.push(seq![s.last()]);
                assert(all.drop_last() =~= w);
                if p.len() > 0 {
                    assert(p.last() == s[s.len() - 2]);
                }
            } else {
                assert(p.last() == s[s.len() - 2]);
                let all = w.drop_last().push(w.last().push(s.last()));
                assert(all.drop_last() =~= w.drop_last());
            }
        }
    }
}

proof fn lemma_total_monotonic(words: Seq<Seq<char>>, k: int)
    requires
        0 <= k <= words.len(),
    ensures
        total_len(words.take(k)) <= total_len(words),
    decreases words.len(),
{
    if k == words.len() {
        assert(words.take(k) =~= words);
    } else {
        lemma_total_monotonic(words.drop_last(), k);
        assert(words.drop_last().take(k) =~= words.take(k));
    }
}

proof fn lemma_score_stops(s: Seq<char>, words: Seq<Seq<char>>, k: int)
    requires
        0 <= k <= words.len(),
        words_score(s, words.take(k)) is None,
    ensures
        words_score(s, words) is None,
    decreases words.len(),
{
    if k == words.len() {
        assert(words.take(k) =~= words);
    } else {
        assert(words.drop_last().take(k) =~= words.take(k));
        lemma_score_stops(s, words.drop_last(), k);
    }
}

/// The score of one search word in a text.
fn score_word(v: &Vec<char>, word: &Vec<char>) -> (r: Option<i128>)
    ensures
        match r {
            Some(n) => word_score(v@, word@) == Some(n as int) && n <= 30 * word@.len() && n
                >= -(v@.len()),
            None => word_score(v@, word@) is None,
        },
{
    let mut count: usize = 0;
    let mut last: usize = 0;
    let mut score: i128 = 0;
    let mut i: usize = 0;
    while i < v.len() && count < word.len()
        invariant
            i <= v@.len(),
            count <= word@.len(),
            count == found(v@, word@, i as int).count,
            count > 0 ==> last == found(v@, word@, i as int).last,
            score == found(v@, word@, i as int).score,
        decreases v@.len() - i,
    {
        proof {
            lemma_found_bounds(v@, word@, i as int);
            lemma_found_bounds(v@, word@, i + 1);
        }
        if v[i] == word[count] {
            let start: i128 = if i == 0 || !v[i - 1].is_alphanumeric() {
                8
            } else {
                0
            };
            let step: i128 = if count == 0 {
                -(i as i128)
            } else if last + 1 == i {
                12
            } else {
                -((i - last - 1) as i128)
            };
            score = score + 10 + start + step;
            last = i;
            count += 1;
        }
        i += 1;
    }
    proof {
        lemma_found_bounds(v@, word@, i as int);
        lemma_found_bounds(v@, word@, v@.len() as int);
        if count == word@.len() {
            lemma_found_stays(v@, word@, i as int, v@.len() as int);
        }
    }
    if count == word.len() {
        Some(score)
    } else {
        None
    }
}

/// Subsequence matching of a query against a text, both in lower case:
/// contiguous runs and word starts rank above scattered letters. Separate
/// search words may match in any order.
pub fn fuzzy_score(text: &str, query: &str) -> (r: Option<i128>)
    ensures
        match r {
            Some(n) => fuzzy(text@, query@) == Some(n as int),
            None => fuzzy(text@, query@) is None,
        },
{
    let v = chars_of(text);
    let parts = words_text(query);
    let ghost all = text::words(query@);
    let length: usize = v.len();
    let q: usize = chars_of(query).len();
    let mut score: i128 = 0;
    let mut i: usize = 0;
    proof {
        lemma_words_size(query@);
        assert(all.take(0) =~= Seq::<Seq<char>>::empty());
    }
    while i < parts.len()
        invariant
            v@ == text@,
            all == text::words(query@),
            all == text::texts(parts@),
            i <= parts@.len(),
            q == query@.len(),
            total_len(all) <= q,
            2 * parts@.len() <= q + 1,
            words_score(text@, all.take(i as int)) == Some(score as int),
            score <= 30 * total_len(all.take(i as int)),
            score >= -(i * 0x1_0000_0000_0000_0000),
            length == v@.len(),
        decreases parts@.len() - i,
    {
        let word = chars_of(parts[i].as_str());
        proof {
            assert(all.take(i + 1).drop_last() =~= all.take(i as int));
            assert(all[i as int] == parts@[i as int]@);
            lemma_total_monotonic(all, i + 1);
        }
        match score_word(&v, &word) {
            Some(n) => {
                score = score + n;
            },
            None => {
                proof {
                    lemma_score_stops(text@, all, i + 1);
                }
                return None;
            },
        }
        i += 1;
    }
    assert(all.take(i as int) =~= all);
    Some(score)
}

// ---------------------------------------------------------------------------
// Choices and their order
// ---------------------------------------------------------------------------

/// One row of a dialog.
#[derive(Debug)]
pub struct Choice {
    pub reference: String,
    pub label: String,
    pub search: String,
    pub configured: bool,
    pub enabled: Option<bool>,
}

/// Mathematical value of a choice.
#[verifier::ext_equal]
pub struct ChoiceView {
    pub reference: Seq<char>,
    pub label: Seq<char>,
    pub search: Seq<char>,
    pub configured: bool,
    pub enabled: Option<bool>,
}

impl View for Choice {
    type V = ChoiceView;

    open spec fn view(&self) -> ChoiceView {
        ChoiceView {
            reference: self.reference@,
            label: self.label@,
            search: self.search@,
            configured: self.configured,
            enabled: self.enabled,
        }
    }
}

/// The values of several choices.
pub open spec fn choices_view(s: Seq<Choice>) -> Seq<ChoiceView> {
    s.map_values(|c: Choice| c@)
}

/// What choices are ordered by.
pub struct Rank {
    pub score: int,
    pub configured: bool,
    pub label: Seq<char>,
}

/// `a` comes before `b` in alphabetical order of code points, or is the same.
pub open spec fn not_after(a: Seq<char>, b: Seq<char>) -> bool
    decreases a.len(),
{
    if a.len() == 0 {
        true
    } else if b.len() == 0 {
        false
    } else if a[0] == b[0] {
        not_after(a.drop_first(), b.drop_first())
    } else {
        (a[0] as int) < (b[0] as int)
    }
}

/// `a` may stand before `b`: a better score first, then configured choices,
/// then labels in alphabetical order.
pub open spec fn ranks_before(a: Rank, b: Rank) -> bool {
    if a.score != b.score {
        a.score > b.score
    } else if a.configured != b.configured {
        a.configured
    } else {
        not_after(a.label, b.label)
    }
}

proof fn lemma_not_after_total(a: Seq<char>, b: Seq<char>)
    ensures
        not_after(a, b) || not_after(b, a),
    decreases a.len(),
{
    if a.len() > 0 && b.len() > 0 && a[0] == b[0] {
        lemma_not_after_total(a.drop_first(), b.drop_first());
    }
}

proof fn lemma_not_after_transitive(a: Seq<char>, b: Seq<char>, c: Seq<char>)
    requires
        not_after(a, b),
        not_after(b, c),
    ensures
        not_after(a, c),
    decreases a.len(),
{
    if a.len() > 0 && b.len() > 0 && c.len() > 0 && a[0] == b[0] && b[0] == c[0] {
        lemma_not_after_transitive(a.drop_first(), b.drop_first(), c.drop_first());
    }
}

proof fn lemma_ranks_order(a: Rank, b: Rank, c: Rank)
    ensures
        ranks_before(a, b) || ranks_before(b, a),
        ranks_before(a, b) && ranks_before(b, c) ==> ranks_before(a, c),
{
    lemma_not_after_total(a.label, b.label);
    if not_after(a.label, b.label) && not_after(b.label, c.label) {
        lemma_not_after_transitive(a.label, b.label, c.label);
    }
}

/// The number of a character.
fn code_point(c: char) -> (r: u32)
    ensures
        r == c as int,
{
    c as u32
}

/// Whether one string is not after another in alphabetical order.
fn text_not_after(a: &str, b: &str) -> (r: bool)
    ensures
        r == not_after(a@, b@),
{
    let x = chars_of(a);
    let y = chars_of(b);
    let mut i: usize = 0;
    assert(a@.skip(0) =~= a@);
    assert(b@.skip(0) =~= b@);
    while i < x.len() && i < y.len() && x[i] == y[i]
        invariant
            x@ == a@,
            y@ == b@,
            i <= x@.len(),
            i <= y@.len(),
            not_after(a@, b@) == not_after(a@.skip(i as int), b@.skip(i as int)),
        decreases x@.len() - i,
    {
        assert(a@.skip(i as int).drop_first() =~= a@.skip(i + 1));
        assert(b@.skip(i as int).drop_first() =~= b@.skip(i + 1));
        i += 1;
    }
    if i >= x.len() {
        true
    } else if i >= y.len() {
        false
    } else {
        let c: char = x[i];
        let d: char = y[i];
        assert(a@.skip(i as int)[0] == c && b@.skip(i as int)[0] == d);
        code_point(c) < code_point(d)
    }
}

/// What the choice at `i` is ordered by under a query in lower case.
pub open spec fn rank_of(c: Seq<ChoiceView>, query: Seq<char>, i: int) -> Rank {
    Rank {
        score: fuzzy(c[i].search, query)->0,
        configured: c[i].configured,
        label: c[i].label,
    }
}

/// `m` lists the choices that match a query, each once and best first. The
/// order of choices that rank the same is left open.
pub open spec fn is_ranking(c: Seq<ChoiceView>, query: Seq<char>, m: Seq<usize>) -> bool {
    let q = lowercase(query);
    &&& forall|p: int|
        0 <= p < m.len() ==> 0 <= (#[trigger] m[p]) < c.len() && fuzzy(
            c[m[p] as int].search,
            q,
        ) is Some
    &&& forall|i: int|
        0 <= i < c.len() && fuzzy((#[trigger] c[i]).search, q) is Some ==> m.contains(i as usize)
    &&& forall|p: int, r: int| 0 <= p < r < m.len() ==> #[trigger] m[p] != #[trigger] m[r]
    &&& forall|p: int, r: int|
        0 <= p < r < m.len() ==> ranks_before(
            rank_of(c, q, #[trigger] m[p] as int),
            rank_of(c, q, #[trigger] m[r] as int),
        )
}

/// The same while only the first `n` choices have been looked at.
spec fn ranked_so_far(c: Seq<ChoiceView>, q: Seq<char>, m: Seq<usize>, n: int) -> bool {
    &&& forall|p: int|
        0 <= p < m.len() ==> 0 <= (#[trigger] m[p]) < n && fuzzy(
            c[m[p] as int].search,
            q,
        ) is Some
    &&& forall|i: int|
        0 <= i < n && fuzzy((#[trigger] c[i]).search, q) is Some ==> m.contains(i as usize)
    &&& forall|p: int, r: int| 0 <= p < r < m.len() ==> #[trigger] m[p] != #[trigger] m[r]
    &&& forall|p: int, r: int|
        0 <= p < r < m.len() ==> ranks_before(
            rank_of(c, q, #[trigger] m[p] as int),
            rank_of(c, q, #[trigger] m[r] as int),
        )
}

proof fn lemma_insert_ranked(c: Seq<ChoiceView>, q: Seq<char>, m: Seq<usize>, n: int, p: int)
    requires
        0 <= n < c.len() <= usize::MAX,
        0 <= p <= m.len(),
        ranked_so_far(c, q, m, n),
        fuzzy(c[n].search, q) is Some,
        forall|r: int|
            0 <= r < p ==> ranks_before(rank_of(c, q, (#[trigger] m[r]) as int), rank_of(c, q, n)),
        p < m.len() ==> !ranks_before(rank_of(c, q, m[p] as int), rank_of(c, q, n)),
    ensures
        ranked_so_far(c, q, m.insert(p, n as usize), n + 1),
{
    let x = n as usize;
    let k = m.insert(p, x);
    assert forall|r: int| 0 <= r < k.len() implies 0 <= (#[trigger] k[r]) < n + 1 && fuzzy(
        c[k[r] as int].search,
        q,
    ) is Some by {
        if r < p {
            assert(k[r] == m[r]);
        } else if r > p {
            assert(k[r] == m[r - 1]);
        }
    }
    assert forall|i: int|
        0 <= i < n + 1 && fuzzy((#[trigger] c[i]).search, q) is Some implies k.contains(
        i as usize,
    ) by {
        if i == n {
            assert(k[p] == x);
        } else {
            let r = choose|r: int| 0 <= r < m.len() && m[r] == i as usize;
            if r < p {
                assert(k[r] == m[r]);
            } else {
                assert(k[r + 1] == m[r]);
            }
        }
    }
    assert forall|a: int, b: int| 0 <= a < b < k.len() implies #[trigger] k[a] != #[trigger] k[b]
        && ranks_before(rank_of(c, q, k[a] as int), rank_of(c, q, k[b] as int)) by {
        if b < p {
            assert(k[a] == m[a] && k[b] == m[b]);
        } else if a < p && b == p {
            assert(k[a] == m[a]);
        } else if a < p {
            assert(k[a] == m[a] && k[b] == m[b - 1]);
        } else if a == p {
            assert(k[b] == m[b - 1]);
            lemma_ranks_order(
                rank_of(c, q, n),
                rank_of(c, q, m[p] as int),
                rank_of(c, q, m[b - 1] as int),
            );
            lemma_ranks_order(
                rank_of(c, q, m[p] as int),
                rank_of(c, q, n),
                rank_of(c, q, m[b - 1] as int),
            );
            if b - 1 > p {
                assert(m[p] != m[b - 1]);
            }
        } else {
            assert(k[a] == m[a - 1] && k[b] == m[b - 1]);
        }
    }
}

/// Position of the first match with a reference, looking from `p` on, or the
/// number of matches.
pub open spec fn match_of(
    c: Seq<ChoiceView>,
    m: Seq<usize>,
    reference: Seq<char>,
    p: int,
) -> int
    decreases m.len() - p,
{
    if 0 <= p < m.len() && c[m[p] as int].reference != reference {
        match_of(c, m, reference, p + 1)
    } else {
        p
    }
}

/// The row to select: the one with the reference to keep where it is among
/// the matches, else the first.
pub open spec fn kept_row(c: Seq<ChoiceView>, m: Seq<usize>, keep: Option<Seq<char>>) -> int {
    match keep {
        Some(reference) => {
            let p = match_of(c, m, reference, 0);
            if p < m.len() {
                p
            } else {
                0
            }
        },
        None => 0,
    }
}

/// A text without control codes.
pub open spec fn printable(s: Seq<char>) -> Seq<char> {
    s.filter(|c: char| !text::control(c))
}

/// A text without control codes.
fn printable_text(s: &str) -> (r: String)
    ensures
        r@ == printable(s@),
{
    let v = chars_of(s);
    let mut out = String::new();
    let mut i: usize = 0;
    proof {
        reveal(Seq::filter);
        assert(s@.take(0) =~= Seq::<char>::empty());
    }
    while i < v.len()
        invariant
            v@ == s@,
            i <= v@.len(),
            out@ == printable(s@.take(i as int)),
        decreases v@.len() - i,
    {
        proof {
            reveal(Seq::filter);
            assert(s@.take(i + 1).drop_last() =~= s@.take(i as int));
        }
        if !is_control_char(v[i]) {
            out.push(v[i]);
        }
        i += 1;
    }
    assert(s@.take(i as int) =~= s@);
    out
}

// ---------------------------------------------------------------------------
// Dialogs
// ---------------------------------------------------------------------------

/// A theme with its name.
#[derive(Debug)]
pub struct NamedTheme {
    pub name: String,
    pub theme: Theme,
}

/// What a dialog chooses among. A theme dialog remembers the theme to restore
/// and the themes it previews.
#[derive(Debug)]
pub enum PickerKind {
    Models,
    Agents,
    Mcps,
    Themes { original: Theme, choices: Vec<NamedTheme> },
}

/// What a key asks of the surface that owns the dialog.
#[derive(Debug)]
pub enum PickerAction {
    Stay,
    Select(String),
    Close,
}

/// A searchable dialog. `pending` is the number of catalogs still loading.
#[derive(Debug)]
pub struct Picker {
    pub kind: PickerKind,
    pub query: Input,
    pub choices: Vec<Choice>,
    pub matches: Vec<usize>,
    pub selected: usize,
    pub errors: Vec<String>,
    pub known: Vec<String>,
    pub pending: usize,
}

/// `n` rows moved into a list of `count`.
pub open spec fn clamped(n: int, count: int) -> int {
    if n < 0 || count <= 0 {
        0
    } else if n >= count {
        count - 1
    } else {
        n
    }
}

impl Picker {
    /// The matches are the ranking of the choices under the query, and the
    /// selected row is one of them.
    pub open spec fn wf(self) -> bool {
        &&& self.query.wf()
        &&& is_ranking(choices_view(self.choices@), self.query.text@, self.matches@)
        &&& self.selected < self.matches@.len() || self.selected == 0
    }

    /// Nothing but the query, the matches and the selection differs.
    pub open spec fn same_content(self, other: Picker) -> bool {
        &&& self.kind == other.kind
        &&& self.choices == other.choices
        &&& self.errors == other.errors
        &&& self.known == other.known
        &&& self.pending == other.pending
    }

    /// A dialog without choices.
    fn empty(kind: PickerKind) -> (r: Picker)
        ensures
            r.kind == kind,
            r.query.is(Seq::empty(), 0),
            r.choices@.len() == 0,
            r.matches@.len() == 0,
            r.selected == 0,
            r.errors@.len() == 0,
            r.known@.len() == 0,
            r.pending == 0,
            r.wf(),
    {
        let r = Picker {
            kind,
            query: Input::default(),
            choices: Vec::new(),
            matches: Vec::new(),
            selected: 0,
            errors: Vec::new(),
            known: Vec::new(),
            pending: 0,
        };
        assert(r.query.text@ =~= Seq::<char>::empty());
        proof {
            text::lemma_offset_ends(r.query.text@);
        }
        r
    }

    /// The row under the selection.
    pub fn current(&self) -> (r: Option<&Choice>)
        requires
            self.wf(),
        ensures
            match r {
                Some(c) => self.selected < self.matches@.len() && *c
                    == self.choices@[self.matches@[self.selected as int] as int],
                None => self.matches@.len() == 0,
            },
    {
        if self.selected < self.matches.len() {
            Some(&self.choices[self.matches[self.selected]])
        } else {
            None
        }
    }

    /// Append a choice. Labels may be remote text, so control codes are taken
    /// out of them. The matches are left as they are until the query changes.
    pub fn add(&mut self, reference: String, label: String, configured: bool)
        ensures
            choices_view(final(self).choices@) == choices_view(old(self).choices@).push(
                new_choice(reference@, label@, configured),
            ),
            final(self).choices@.len() == old(self).choices@.len() + 1,
            *final(self) == (Picker { choices: final(self).choices, ..*old(self) }),
    {
        let label = printable_text(label.as_str());
        let search = label.as_str().to_lowercase();
        let choice = Choice { reference, label, search, configured, enabled: None };
        let ghost v = choice@;
        let ghost before = self.choices@;
        self.choices.push(choice);
        assert(choices_view(self.choices@) =~= choices_view(before).push(v));
    }

    /// Rank the choices anew and select the row to keep, or the first.
    fn filter(&mut self, keep: Option<&str>)
        requires
            old(self).query.wf(),
        ensures
            final(self).wf(),
            final(self).same_content(*old(self)),
            final(self).query == old(self).query,
            final(self).selected == kept_row(
                choices_view(old(self).choices@),
                final(self).matches@,
                match keep {
                    Some(s) => Some(s@),
                    None => None,
                },
            ),
    {
        let query = self.query.text.as_str().to_lowercase();
        let ghost c = choices_view(self.choices@);
        let ghost q = query@;
        let mut ranked: Vec<usize> = Vec::new();
        let mut scores: Vec<i128> = Vec::new();
        let total: usize = self.choices.len();
        let mut i: usize = 0;
        while i < total
            invariant
                c == choices_view(self.choices@),
                q == query@,
                total == self.choices@.len(),
                total == c.len(),
                i <= total,
                ranked@.len() == scores@.len(),
                ranked_so_far(c, q, ranked@, i as int),
                forall|p: int|
                    0 <= p < ranked@.len() ==> fuzzy(c[(#[trigger] ranked@[p]) as int].search, q)
                        == Some(scores@[p] as int),
            decreases total - i,
        {
            assert(c[i as int] == self.choices@[i as int]@);
            match fuzzy_score(self.choices[i].search.as_str(), query.as_str()) {
                Some(score) => {
                    let mut p: usize = 0;
                    while p < ranked.len() && self.stands_before(
                        ranked[p],
                        scores[p],
                        i,
                        score,
                        Ghost(q),
                    )
                        invariant
                            c == choices_view(self.choices@),
                            total == self.choices@.len(),
                            total == c.len(),
                            i < total,
                            fuzzy(c[i as int].search, q) == Some(score as int),
                            ranked@.len() == scores@.len(),
                            ranked_so_far(c, q, ranked@, i as int),
                            forall|r: int|
                                0 <= r < ranked@.len() ==> fuzzy(
                                    c[(#[trigger] ranked@[r]) as int].search,
                                    q,
                                ) == Some(scores@[r] as int),
                            p <= ranked@.len(),
                            forall|r: int|
                                0 <= r < p ==> ranks_before(
                                    rank_of(c, q, (#[trigger] ranked@[r]) as int),
                                    rank_of(c, q, i as int),
                                ),
                        decreases ranked@.len() - p,
                    {
                        p += 1;
                    }
                    proof {
                        lemma_insert_ranked(c, q, ranked@, i as int, p as int);
                    }
                    let ghost m = ranked@;
                    let ghost t = scores@;
                    ranked.insert(p, i);
                    scores.insert(p, score);
                    assert forall|r: int| 0 <= r < ranked@.len() implies fuzzy(
                        c[(#[trigger] ranked@[r]) as int].search,
                        q,
                    ) == Some(scores@[r] as int) by {
                        if r < p {
                            assert(ranked@[r] == m[r] && scores@[r] == t[r]);
                        } else if r > p {
                            assert(ranked@[r] == m[r - 1] && scores@[r] == t[r - 1]);
                        }
                    }
                },
                None => {
                    assert(ranked_so_far(c, q, ranked@, i + 1));
                },
            }
            i += 1;
        }
        self.matches = ranked;
        self.selected = 0;
        if let Some(reference) = keep {
            let mut p: usize = 0;
            while p < self.matches.len() && !same(
                self.choices[self.matches[p]].reference.as_str(),
                reference,
            )
                invariant
                    c == choices_view(self.choices@),
                    is_ranking(c, self.query.text@, self.matches@),
                    p <= self.matches@.len(),
                    match_of(c, self.matches@, reference@, 0) == match_of(
                        c,
                        self.matches@,
                        reference@,
                        p as int,
                    ),
                decreases self.matches@.len() - p,
            {
                assert(c[self.matches@[p as int] as int]
                    == self.choices@[self.matches@[p as int] as int]@);
                p += 1;
            }
            proof {
                if p < self.matches@.len() {
                    assert(c[self.matches@[p as int] as int]
                        == self.choices@[self.matches@[p as int] as int]@);
                }
            }
            if p < self.matches.len() {
                self.selected = p;
            }
        }
    }

    /// Whether the choice at `a` may stand before the one at `b`.
    fn stands_before(
        &self,
        a: usize,
        a_score: i128,
        b: usize,
        b_score: i128,
        query: Ghost<Seq<char>>,
    ) -> (r: bool)
        requires
            a < self.choices@.len(),
            b < self.choices@.len(),
            fuzzy(self.choices@[a as int].search@, query@) == Some(a_score as int),
            fuzzy(self.choices@[b as int].search@, query@) == Some(b_score as int),
        ensures
            r == ranks_before(
                rank_of(choices_view(self.choices@), query@, a as int),
                rank_of(choices_view(self.choices@), query@, b as int),
            ),
    {
        let x = &self.choices[a];
        let y = &self.choices[b];
        assert(choices_view(self.choices@)[a as int] == x@);
        assert(choices_view(self.choices@)[b as int] == y@);
        if a_score != b_score {
            a_score > b_score
        } else if x.configured != y.configured {
            x.configured
        } else {
            text_not_after(x.label.as_str(), y.label.as_str())
        }
    }

    /// Insert pasted text into the query, control codes taken out.
    pub fn paste(&mut self, text: &str)
        requires
            old(self).query.wf(),
        ensures
            final(self).wf(),
            final(self).same_content(*old(self)),
            final(self).selected == 0,
            ({
                let s = old(self).query.text@;
                let k = old(self).query.at();
                final(self).query.is(
                    s.take(k) + printable(text@) + s.skip(k),
                    k + printable(text@).len(),
                )
            }),
    {
        let clean = printable_text(text);
        self.query.insert(clean.as_str());
        self.filter(None);
    }

    /// Move the selection by some rows, within the matches.
    pub fn scroll(&mut self, rows: isize)
        requires
            old(self).wf(),
        ensures
            final(self).wf(),
            final(self).selected == clamped(
                old(self).selected + rows,
                old(self).matches@.len() as int,
            ),
            *final(self) == (Picker { selected: final(self).selected, ..*old(self) }),
    {
        let moved: i128 = self.selected as i128 + rows as i128;
        let count: usize = self.matches.len();
        self.selected = if moved < 0 || count == 0 {
            0
        } else if moved >= count as i128 {
            count - 1
        } else {
            moved as usize
        };
    }

    /// Handle a key. Moves stay within the matches; an edit of the query ranks
    /// the choices anew and selects the first.
    pub fn key(&mut self, key: KeyEvent) -> (r: PickerAction)
        requires
            old(self).wf(),
        ensures
            final(self).wf(),
            final(self).same_content(*old(self)),
            key_effect(*old(self), key, *final(self)),
            match key_choice(*old(self), key) {
                Asked::Close => r is Close,
                Asked::Select(reference) => r is Select && r->Select_0@ == reference,
                Asked::Stay => r is Stay,
            },
    {
        let control: bool = key.modifiers.control;
        match key.code {
            KeyCode::Esc => {
                return PickerAction::Close;
            },
            KeyCode::Char('c') if control => {
                return PickerAction::Close;
            },
            KeyCode::Enter => {
                return match self.current() {
                    Some(choice) => PickerAction::Select(choice.reference.clone()),
                    None => PickerAction::Stay,
                };
            },
            KeyCode::Up | KeyCode::BackTab => self.selected = self.selected.saturating_sub(1),
            KeyCode::Down | KeyCode::Tab => self.selected = self.selected.saturating_add(1),
            KeyCode::PageUp => self.selected = self.selected.saturating_sub(10),
            KeyCode::PageDown => self.selected = self.selected.saturating_add(10),
            KeyCode::Home if control => self.selected = 0,
            KeyCode::End if control => self.selected = self.matches.len().saturating_sub(1),
            KeyCode::Left => self.query.left(),
            KeyCode::Right => self.query.right(),
            KeyCode::Home => self.query.to_start(),
            KeyCode::End => self.query.to_end(),
            KeyCode::Backspace => {
                self.query.backspace();
                self.filter(None);
            },
            KeyCode::Delete => {
                self.query.delete();
                self.filter(None);
            },
            KeyCode::Char('u') if control => {
                self.query.take();
                self.filter(None);
            },
            KeyCode::Char(c) if !(control || key.modifiers.alt) => {
                let mut typed = String::new();
                typed.push(c);
                assert(typed@ =~= seq![c]);
                self.query.insert(typed.as_str());
                self.filter(None);
            },
            _ => {},
        }
        let last: usize = self.matches.len().saturating_sub(1);
        if self.selected > last {
            self.selected = last;
        }
        PickerAction::Stay
    }
}

/// The value of a choice that is appended to a dialog.
pub open spec fn new_choice(
    reference: Seq<char>,
    label: Seq<char>,
    configured: bool,
) -> ChoiceView {
    ChoiceView {
        reference,
        label: printable(label),
        search: lowercase(printable(label)),
        configured,
        enabled: None,
    }
}

/// What a key asks of the surface that owns the dialog.
pub enum Asked {
    Stay,
    Select(Seq<char>),
    Close,
}

/// What a key asks: Esc and Ctrl+C close, Enter selects the current row.
pub open spec fn key_choice(p: Picker, key: KeyEvent) -> Asked {
    match key.code {
        KeyCode::Esc => Asked::Close,
        KeyCode::Char('c') if key.modifiers.control => Asked::Close,
        KeyCode::Enter => if p.matches@.len() > 0 {
            Asked::Select(p.choices@[p.matches@[p.selected as int] as int].reference@)
        } else {
            Asked::Stay
        },
        _ => Asked::Stay,
    }
}

/// The query is `s` with the cursor at `k`, and the first match is selected.
pub open spec fn searched(p: Picker, s: Seq<char>, k: int) -> bool {
    p.query.is(s, k) && p.selected == 0
}

/// Only the selection moved.
pub open spec fn moved_to(a: Picker, n: int, b: Picker) -> bool {
    b == (Picker { selected: b.selected, ..a }) && b.selected == clamped(
        n,
        a.matches@.len() as int,
    )
}

/// What a key does to a dialog.
pub open spec fn key_effect(a: Picker, key: KeyEvent, b: Picker) -> bool {
    let control = key.modifiers.control;
    let s = a.query.text@;
    let k = a.query.at();
    let n = a.selected as int;
    let stays = b.matches == a.matches && b.selected == a.selected && b.query.text == a.query.text;
    match key.code {
        KeyCode::Esc | KeyCode::Enter => b == a,
        KeyCode::Char('c') if control => b == a,
        KeyCode::Up | KeyCode::BackTab => moved_to(a, n - 1, b),
        KeyCode::Down | KeyCode::Tab => moved_to(a, n + 1, b),
        KeyCode::PageUp => moved_to(a, n - 10, b),
        KeyCode::PageDown => moved_to(a, n + 10, b),
        KeyCode::Home if control => moved_to(a, 0, b),
        KeyCode::End if control => moved_to(a, a.matches@.len() - 1, b),
        KeyCode::Left => stays && b.query.is(
            s,
            if k > 0 {
                k - 1
            } else {
                0
            },
        ),
        KeyCode::Right => stays && b.query.is(
            s,
            if k < s.len() {
                k + 1
            } else {
                k
            },
        ),
        KeyCode::Home => stays && b.query.is(s, 0),
        KeyCode::End => stays && b.query.is(s, s.len() as int),
        KeyCode::Backspace => if k > 0 {
            searched(b, s.take(k - 1) + s.skip(k), k - 1)
        } else {
            searched(b, s, 0)
        },
        KeyCode::Delete => if k < s.len() {
            searched(b, s.take(k) + s.skip(k + 1), k)
        } else {
            searched(b, s, k)
        },
        KeyCode::Char('u') if control => searched(b, Seq::empty(), 0),
        KeyCode::Char(c) if !(control || key.modifiers.alt) => searched(
            b,
            s.take(k) + seq![c] + s.skip(k),
            k + 1,
        ),
        _ => b == a,
    }
}

// ---------------------------------------------------------------------------
// Filling a dialog
// ---------------------------------------------------------------------------

/// A model of a provider.
#[derive(Debug)]
pub struct ModelRef {
    pub provider: String,
    pub model: String,
}

/// A model under a name from the configuration.
#[derive(Debug)]
pub struct ModelAlias {
    pub alias: String,
    pub model: ModelRef,
}

/// A model as a provider lists it.
#[derive(Debug)]
pub struct CatalogModel {
    pub id: String,
    pub name: String,
}

/// How one catalog request ended: with the models of a provider, with an
/// error, or without an answer.
#[derive(Debug)]
pub enum CatalogResult {
    Models { provider: String, models: Vec<CatalogModel> },
    Failed { provider: String, error: String },
    Lost,
}

/// An MCP server and whether it is switched on.
#[derive(Debug)]
pub struct McpServer {
    pub name: String,
    pub uuid: String,
    pub enabled: bool,
}

/// A theme that comes with the program.
#[derive(Debug)]
pub struct Preset {
    pub name: String,
    pub description: String,
    pub theme: Theme,
}

/// What a dialog has gathered: its rows, the model ids it has seen, and the
/// errors of catalogs.
#[verifier::ext_equal]
pub struct Catalog {
    pub choices: Seq<ChoiceView>,
    pub known: Seq<Seq<char>>,
    pub errors: Seq<Seq<char>>,
}

/// A reference among several choices.
pub open spec fn referenced(c: Seq<ChoiceView>, reference: Seq<char>) -> bool {
    exists|i: int| 0 <= i < c.len() && (#[trigger] c[i]).reference == reference
}

/// `provider:model`.
pub open spec fn model_id(provider: Seq<char>, model: Seq<char>) -> Seq<char> {
    provider + ":"@ + model
}

/// `a | b`.
pub open spec fn beside(a: Seq<char>, b: Seq<char>) -> Seq<char> {
    a + " | "@ + b
}

impl Catalog {
    /// An id has been seen.
    pub open spec fn knowing(self, id: Seq<char>) -> Catalog {
        if self.known.contains(id) {
            self
        } else {
            Catalog { known: self.known.push(id), ..self }
        }
    }

    /// A configured model is added once.
    pub open spec fn configured(self, reference: Seq<char>, id: Seq<char>) -> Catalog {
        let known = self.knowing(id);
        if referenced(self.choices, reference) {
            known
        } else {
            let label = if reference == id {
                id
            } else {
                beside(reference, id)
            };
            Catalog { choices: self.choices.push(new_choice(reference, label, true)), ..known }
        }
    }

    /// Several configured models are added.
    pub open spec fn aliases(self, a: Seq<ModelAlias>) -> Catalog
        decreases a.len(),
    {
        if a.len() == 0 {
            self
        } else {
            let m = a.last();
            self.aliases(a.drop_last()).configured(
                m.alias@,
                model_id(m.model.provider@, m.model.model@),
            )
        }
    }

    /// A model that a provider lists is added where its id is new.
    pub open spec fn listed(self, provider: Seq<char>, m: CatalogModel) -> Catalog {
        let id = model_id(provider, m.id@);
        if self.known.contains(id) {
            self
        } else {
            let label = if m.name@ == m.id@ {
                id
            } else {
                beside(id, m.name@)
            };
            Catalog {
                choices: self.choices.push(new_choice(id, label, false)),
                known: self.known.push(id),
                errors: self.errors,
            }
        }
    }

    /// The models that a provider lists are added.
    pub open spec fn all_listed(self, provider: Seq<char>, models: Seq<CatalogModel>) -> Catalog
        decreases models.len(),
    {
        if models.len() == 0 {
            self
        } else {
            self.all_listed(provider, models.drop_last()).listed(provider, models.last())
        }
    }

    /// One catalog request has ended.
    pub open spec fn ended(self, r: CatalogResult) -> Catalog {
        match r {
            CatalogResult::Models { provider, models } => self.all_listed(provider@, models@),
            CatalogResult::Failed { provider, error } => Catalog {
                errors: self.errors.push(provider@ + ": "@ + error@),
                ..self
            },
            CatalogResult::Lost => Catalog {
                errors: self.errors.push("Model list task failed"@),
                ..self
            },
        }
    }

    /// Several catalog requests have ended.
    pub open spec fn all_ended(self, r: Seq<CatalogResult>) -> Catalog
        decreases r.len(),
    {
        if r.len() == 0 {
            self
        } else {
            self.all_ended(r.drop_last()).ended(r.last())
        }
    }
}

/// Three texts one after the other.
fn concat3(a: &str, b: &str, c: &str) -> (r: String)
    ensures
        r@ == a@ + b@ + c@,
{
    let mut out = a.to_owned();
    out.append(b);
    out.append(c);
    out
}

impl ModelRef {
    /// `provider:model`.
    pub fn id(&self) -> (r: String)
        ensures
            r@ == model_id(self.provider@, self.model@),
    {
        concat3(self.provider.as_str(), ":", self.model.as_str())
    }
}

/// The title of a dialog.
pub open spec fn title_of(p: Picker) -> Seq<char> {
    match p.kind {
        PickerKind::Models => "Models"@,
        PickerKind::Agents => "Agents"@,
        PickerKind::Mcps => "MCP servers"@,
        PickerKind::Themes { .. } => "Themes"@,
    }
}

/// The line below the rows of a dialog.
pub open spec fn hint_of(p: Picker) -> Seq<char> {
    match p.kind {
        PickerKind::Models => if p.pending > 0 {
            "Loading provider model lists..."@
        } else if p.errors@.len() > 0 {
            "Some catalogs unavailable: "@ + text::joined(
                text::texts(p.errors@),
                "; "@,
            )
        } else {
            "Type to fuzzy-filter by alias, provider, model ID or name"@
        },
        PickerKind::Agents => "Type to fuzzy-filter agents"@,
        PickerKind::Mcps => if p.choices@.len() == 0 {
            "No configured servers; add one with /mcp add <name> <JSON>"@
        } else {
            "Enter toggles immediately; connects lazily. Esc closes; changes remain."@
        },
        PickerKind::Themes { .. } =>
            "Live preview | Enter applies for this session | Esc restores previous theme"@,
    }
}

/// A fresh dialog of the models: the named ones, then the default and the
/// current one. The current one is selected.
pub open spec fn models_dialog(
    r: Picker,
    aliases: Seq<ModelAlias>,
    default: ModelRef,
    current: ModelRef,
    reference: Option<Seq<char>>,
) -> bool {
    let first = Catalog { choices: Seq::empty(), known: Seq::empty(), errors: Seq::empty() };
    let usual = model_id(default.provider@, default.model@);
    let now = model_id(current.provider@, current.model@);
    let shown = match reference {
        Some(s) => s,
        None => now,
    };
    &&& r.wf()
    &&& r.kind is Models
    &&& r.query.is(Seq::empty(), 0)
    &&& r.pending == 0
    &&& r.catalog() == first.aliases(aliases).configured(usual, usual).configured(shown, now)
    &&& r.selected == kept_row(choices_view(r.choices@), r.matches@, Some(shown))
}

/// A fresh dialog of the servers, each with its state.
pub open spec fn mcps_dialog(r: Picker, servers: Seq<McpServer>) -> bool {
    &&& r.wf()
    &&& r.kind is Mcps
    &&& r.query.is(Seq::empty(), 0)
    &&& r.pending == 0
    &&& r.selected == 0
    &&& r.choices@.len() == servers.len()
    &&& forall|i: int|
        0 <= i < servers.len() ==> (#[trigger] r.choices@[i])@ == (ChoiceView {
            enabled: Some(servers[i].enabled),
            ..new_choice(servers[i].name@, beside(servers[i].name@, servers[i].uuid@), true)
        })
}

/// A fresh dialog of the agents; the default one is marked.
pub open spec fn agents_dialog(r: Picker, names: Seq<Seq<char>>, default: Option<Seq<char>>) -> bool {
    &&& r.wf()
    &&& r.kind is Agents
    &&& r.query.is(Seq::empty(), 0)
    &&& r.pending == 0
    &&& r.selected == 0
    &&& choices_view(r.choices@) == agent_rows(
        agent_names(names, default is Some),
        match default {
            Some(s) => s,
            None => "default"@,
        },
    )
}

/// A fresh dialog of the themes; the one in use is selected.
pub open spec fn themes_dialog(
    r: Picker,
    current: Theme,
    configured: Theme,
    presets: Seq<Preset>,
) -> bool {
    &&& r.wf()
    &&& r.query.is(Seq::empty(), 0)
    &&& r.pending == 0
    &&& r.kind matches PickerKind::Themes { original, choices } && original == current
        && theme_choices(choices@, current, configured, presets) && r.selected == kept_row(
        choices_view(r.choices@),
        r.matches@,
        theme_in_use(choices@, current@, 0),
    )
    &&& choices_view(r.choices@) == theme_rows(presets)
}

impl Picker {
    /// What the dialog has gathered.
    pub open spec fn catalog(self) -> Catalog {
        Catalog {
            choices: choices_view(self.choices@),
            known: text::texts(self.known@),
            errors: text::texts(self.errors@),
        }
    }

    /// Nothing but what was gathered differs.
    pub open spec fn same_state(self, other: Picker) -> bool {
        &&& self.kind == other.kind
        &&& self.query == other.query
        &&& self.matches == other.matches
        &&& self.selected == other.selected
        &&& self.pending == other.pending
    }

    /// Remember an id; returns whether it was new.
    fn learn(&mut self, id: &str) -> (r: bool)
        ensures
            r == !text::texts(old(self).known@).contains(id@),
            final(self).catalog() == old(self).catalog().knowing(id@),
            *final(self) == (Picker { known: final(self).known, ..*old(self) }),
    {
        let ghost k = text::texts(self.known@);
        let mut i: usize = 0;
        while i < self.known.len()
            invariant
                k == text::texts(self.known@),
                i <= self.known@.len(),
                forall|j: int| 0 <= j < i ==> #[trigger] k[j] != id@,
            decreases self.known@.len() - i,
        {
            assert(k[i as int] == self.known@[i as int]@);
            if same(self.known[i].as_str(), id) {
                return false;
            }
            i += 1;
        }
        let ghost before = self.known@;
        let copy = id.to_owned();
        proof {
            text::lemma_texts_push(before, copy);
        }
        self.known.push(copy);
        true
    }

    /// Whether some row has the reference.
    fn has_reference(&self, reference: &str) -> (r: bool)
        ensures
            r == referenced(choices_view(self.choices@), reference@),
    {
        let ghost c = choices_view(self.choices@);
        let mut i: usize = 0;
        while i < self.choices.len()
            invariant
                c == choices_view(self.choices@),
                i <= self.choices@.len(),
                forall|j: int| 0 <= j < i ==> (#[trigger] c[j]).reference != reference@,
            decreases self.choices@.len() - i,
        {
            assert(c[i as int] == self.choices@[i as int]@);
            if same(self.choices[i].reference.as_str(), reference) {
                return true;
            }
            i += 1;
        }
        false
    }

    /// Add a configured model, once.
    fn add_configured(&mut self, reference: &str, model: &ModelRef)
        ensures
            final(self).catalog() == old(self).catalog().configured(
                reference@,
                model_id(model.provider@, model.model@),
            ),
            final(self).same_state(*old(self)),
    {
        let id = model.id();
        self.learn(id.as_str());
        if self.has_reference(reference) {
            return;
        }
        let label = if same(reference, id.as_str()) {
            id
        } else {
            concat3(reference, " | ", id.as_str())
        };
        self.add(reference.to_owned(), label, true);
    }

    /// A dialog over the configured models, the default and the current one,
    /// which is selected.
    pub fn models(
        aliases: &Vec<ModelAlias>,
        default: &ModelRef,
        current: &ModelRef,
        reference: Option<&str>,
    ) -> (r: Picker)
        ensures
            models_dialog(r, aliases@, *default, *current, model::opt_view(reference)),
    {
        let mut picker = Picker::empty(PickerKind::Models);
        let ghost first = Catalog {
            choices: Seq::empty(),
            known: Seq::empty(),
            errors: Seq::empty(),
        };
        let mut i: usize = 0;
        proof {
            assert(picker.catalog() =~= first);
            assert(aliases@.take(0) =~= Seq::<ModelAlias>::empty());
        }
        while i < aliases.len()
            invariant
                i <= aliases@.len(),
                picker.catalog() == first.aliases(aliases@.take(i as int)),
                picker.kind is Models,
                picker.query.is(Seq::empty(), 0),
                picker.pending == 0,
            decreases aliases@.len() - i,
        {
            assert(aliases@.take(i + 1).drop_last() =~= aliases@.take(i as int));
            picker.add_configured(aliases[i].alias.as_str(), &aliases[i].model);
            i += 1;
        }
        assert(aliases@.take(i as int) =~= aliases@);
        let usual = default.id();
        picker.add_configured(usual.as_str(), default);
        let now = current.id();
        let shown = match reference {
            Some(s) => s.to_owned(),
            None => now,
        };
        picker.add_configured(shown.as_str(), current);
        picker.filter(Some(shown.as_str()));
        picker
    }

    /// A dialog over the MCP servers.
    pub fn mcps(servers: &Vec<McpServer>) -> (r: Picker)
        ensures
            mcps_dialog(r, servers@),
    {
        let mut picker = Picker::empty(PickerKind::Mcps);
        let mut i: usize = 0;
        while i < servers.len()
            invariant
                i <= servers@.len(),
                picker.kind is Mcps,
                picker.query.is(Seq::empty(), 0),
                picker.pending == 0,
                picker.choices@.len() == i,
                forall|j: int|
                    0 <= j < i ==> (#[trigger] picker.choices@[j])@ == (ChoiceView {
                        enabled: Some(servers@[j].enabled),
                        ..new_choice(
                            servers@[j].name@,
                            beside(servers@[j].name@, servers@[j].uuid@),
                            true,
                        )
                    }),
            decreases servers@.len() - i,
        {
            let name = servers[i].name.clone();
            let label = concat3(servers[i].name.as_str(), " | ", servers[i].uuid.as_str());
            let ghost before = choices_view(picker.choices@);
            picker.add(name, label, true);
            proof {
                assert forall|j: int| 0 <= j < i implies (#[trigger] picker.choices@[j])@
                    == before[j] by {
                    assert(choices_view(picker.choices@)[j] == picker.choices@[j]@);
                }
                assert(choices_view(picker.choices@)[i as int] == picker.choices@[i as int]@);
            }
            let mut last = picker.choices.pop().unwrap();
            last.enabled = Some(servers[i].enabled);
            picker.choices.push(last);
            i += 1;
        }
        picker.filter(None);
        picker
    }

    /// A dialog over agents. Without a default agent the bare default is
    /// offered first, and an agent that is literally called so is left out.
    pub fn agents(names: &Vec<String>, default: Option<&str>) -> (r: Picker)
        ensures
            agents_dialog(r, text::texts(names@), model::opt_view(default)),
    {
        let mut picker = Picker::empty(PickerKind::Agents);
        let offered = offered_agents(names, default.is_some());
        let ghost all = text::texts(offered@);
        let marked = match default {
            Some(s) => s.to_owned(),
            None => "default".to_owned(),
        };
        let mut i: usize = 0;
        proof {
            assert(all.take(0) =~= Seq::<Seq<char>>::empty());
            assert(choices_view(picker.choices@) =~= agent_rows(all.take(0), marked@));
        }
        while i < offered.len()
            invariant
                all == text::texts(offered@),
                i <= offered@.len(),
                picker.kind is Agents,
                picker.query.is(Seq::empty(), 0),
                picker.pending == 0,
                choices_view(picker.choices@) == agent_rows(all.take(i as int), marked@),
            decreases offered@.len() - i,
        {
            proof {
                assert(all.take(i + 1).drop_last() =~= all.take(i as int));
                assert(all[i as int] == offered@[i as int]@);
            }
            let mut label = offered[i].clone();
            if same(offered[i].as_str(), marked.as_str()) {
                label.append(" (default)");
            }
            picker.add(offered[i].clone(), label, true);
            i += 1;
        }
        assert(all.take(i as int) =~= all);
        picker.filter(None);
        picker
    }

    /// A dialog over themes, with the current one selected where it is among
    /// them. Presets keep the current borders and highlighting.
    pub fn themes(current: &Theme, configured: &Theme, presets: &Vec<Preset>) -> (r: Picker)
        ensures
            themes_dialog(r, *current, *configured, presets@),
    {
        let mut choices: Vec<NamedTheme> = Vec::new();
        choices.push(
            NamedTheme { name: "configured".to_owned(), theme: configured.duplicate() },
        );
        let mut i: usize = 0;
        while i < presets.len()
            invariant
                i <= presets@.len(),
                choices@.len() == i + 1,
                theme_choices(choices@, *current, *configured, presets@.take(i as int)),
            decreases presets@.len() - i,
        {
            let mut theme = presets[i].theme.duplicate();
            theme.ascii = current.ascii;
            theme.syntax_highlighting = current.syntax_highlighting;
            let ghost before = choices@;
            let ghost named = NamedTheme { name: presets@[i as int].name, theme };
            choices.push(NamedTheme { name: presets[i].name.clone(), theme });
            assert(presets@.take(i + 1)[i as int] == presets@[i as int]);
            assert forall|j: int| 0 <= j < i + 1 implies #[trigger] named_preset(
                choices@[j + 1],
                presets@.take(i + 1)[j],
                *current,
            ) by {
                if j < i {
                    assert(before[j + 1] == choices@[j + 1]);
                    assert(named_preset(before[j + 1], presets@.take(i as int)[j], *current));
                    assert(presets@.take(i + 1)[j] == presets@.take(i as int)[j]);
                }
            }
            i += 1;
        }
        assert(presets@.take(i as int) =~= presets@);
        let mut selected: Option<String> = None;
        let mut k: usize = 0;
        let mut looking: bool = true;
        while k < choices.len() && looking
            invariant
                k <= choices@.len(),
                looking ==> selected is None && theme_in_use(choices@, current@, 0)
                    == theme_in_use(choices@, current@, k as int),
                !looking ==> selected is Some && theme_in_use(choices@, current@, 0) == Some(
                    selected->0@,
                ),
            decreases choices@.len() - k + if looking {
                1int
            } else {
                0
            },
        {
            if choices[k].theme.same(current) {
                selected = Some(choices[k].name.clone());
                looking = false;
            } else {
                k += 1;
            }
        }
        let ghost listed = choices@;
        let mut picker = Picker::empty(
            PickerKind::Themes { original: current.duplicate(), choices },
        );
        let ghost kind = picker.kind;
        picker.add(
            "configured".to_owned(),
            "configured | Theme from config.json".to_owned(),
            true,
        );
        let mut i: usize = 0;
        proof {
            assert(presets@.take(0) =~= Seq::<Preset>::empty());
            assert(choices_view(picker.choices@) =~= theme_rows(presets@.take(0)));
        }
        while i < presets.len()
            invariant
                i <= presets@.len(),
                picker.kind == kind,
                picker.query.is(Seq::empty(), 0),
                picker.pending == 0,
                choices_view(picker.choices@) == theme_rows(presets@.take(i as int)),
            decreases presets@.len() - i,
        {
            assert(presets@.take(i + 1).drop_last() =~= presets@.take(i as int));
            let label = concat3(
                presets[i].name.as_str(),
                " | ",
                presets[i].description.as_str(),
            );
            picker.add(presets[i].name.clone(), label, true);
            i += 1;
        }
        assert(presets@.take(i as int) =~= presets@);
        match selected {
            Some(name) => {
                picker.filter(Some(name.as_str()));
            },
            None => {
                picker.filter(None);
            },
        }
        picker
    }

    /// The theme of the selected row of a theme dialog.
    pub open spec fn previewed(self) -> Option<Theme> {
        match self.kind {
            PickerKind::Themes { original, choices } => if self.matches@.len() > 0 {
                theme_named(
                    choices@,
                    self.choices@[self.matches@[self.selected as int] as int].reference@,
                    0,
                )
            } else {
                None
            },
            _ => None,
        }
    }

    /// The theme of the selected row of a theme dialog.
    pub fn preview_theme(&self) -> (r: Option<&Theme>)
        requires
            self.wf(),
        ensures
            match r {
                Some(t) => self.previewed() == Some(*t),
                None => self.previewed() is None,
            },
    {
        match &self.kind {
            PickerKind::Themes { original: _, choices } => {
                match self.current() {
                    Some(choice) => {
                        let mut i: usize = 0;
                        while i < choices.len()
                            invariant
                                i <= choices@.len(),
                                theme_named(choices@, choice.reference@, 0) == theme_named(
                                    choices@,
                                    choice.reference@,
                                    i as int,
                                ),
                                self.previewed() == theme_named(
                                    choices@,
                                    choice.reference@,
                                    0,
                                ),
                            decreases choices@.len() - i,
                        {
                            if same(choices[i].name.as_str(), choice.reference.as_str()) {
                                return Some(&choices[i].theme);
                            }
                            i += 1;
                        }
                        None
                    },
                    None => None,
                }
            },
            _ => None,
        }
    }

    /// Heading of the dialog.
    pub fn title(&self) -> (r: &'static str)
        ensures
            r@ == title_of(*self),
    {
        match self.kind {
            PickerKind::Models => "Models",
            PickerKind::Agents => "Agents",
            PickerKind::Mcps => "MCP servers",
            PickerKind::Themes { .. } => "Themes",
        }
    }

    /// The line below the rows.
    pub fn hint(&self) -> (r: String)
        ensures
            r@ == hint_of(*self),
    {
        match self.kind {
            PickerKind::Models => {
                if self.loading() {
                    "Loading provider model lists...".to_owned()
                } else if self.errors.len() > 0 {
                    let mut out = "Some catalogs unavailable: ".to_owned();
                    out.append(text::join_text(&self.errors, "; ").as_str());
                    out
                } else {
                    "Type to fuzzy-filter by alias, provider, model ID or name".to_owned()
                }
            },
            PickerKind::Agents => "Type to fuzzy-filter agents".to_owned(),
            PickerKind::Mcps => {
                if self.choices.len() == 0 {
                    "No configured servers; add one with /mcp add <name> <JSON>".to_owned()
                } else {
                    "Enter toggles immediately; connects lazily. Esc closes; changes remain.".to_owned()
                }
            },
            PickerKind::Themes { .. } => {
                "Live preview | Enter applies for this session | Esc restores previous theme".to_owned()
            },
        }
    }

    /// That many catalog requests have been sent.
    pub fn load(&mut self, requests: usize)
        ensures
            *final(self) == (Picker {
                pending: text::clip(old(self).pending + requests) as usize,
                ..*old(self)
            }),
    {
        self.pending = self.pending.saturating_add(requests);
    }

    /// Whether catalogs are still loading.
    pub fn loading(&self) -> (r: bool)
        ensures
            r == (self.pending > 0),
    {
        self.pending > 0
    }

    /// Add the models that a provider lists.
    fn add_listed(&mut self, provider: &str, models: &Vec<CatalogModel>)
        ensures
            final(self).catalog() == old(self).catalog().all_listed(provider@, models@),
            final(self).same_state(*old(self)),
    {
        let ghost first = self.catalog();
        let ghost was = *self;
        let mut i: usize = 0;
        assert(models@.take(0) =~= Seq::<CatalogModel>::empty());
        while i < models.len()
            invariant
                i <= models@.len(),
                self.catalog() == first.all_listed(provider@, models@.take(i as int)),
                self.same_state(was),
            decreases models@.len() - i,
        {
            assert(models@.take(i + 1).drop_last() =~= models@.take(i as int));
            let id = concat3(provider, ":", models[i].id.as_str());
            if self.learn(id.as_str()) {
                let label = if same(models[i].name.as_str(), models[i].id.as_str()) {
                    id.clone()
                } else {
                    concat3(id.as_str(), " | ", models[i].name.as_str())
                };
                self.add(id, label, false);
            }
            i += 1;
        }
        assert(models@.take(i as int) =~= models@);
    }

    /// Take in catalog requests that have ended and keep the selected row.
    /// Returns whether anything changed.
    pub fn poll(&mut self, results: &Vec<CatalogResult>) -> (r: bool)
        requires
            old(self).wf(),
        ensures
            polled(*old(self), results@, *final(self), r),
    {
        if self.pending == 0 || results.len() == 0 {
            return false;
        }
        let selected: Option<String> = match self.current() {
            Some(choice) => Some(choice.reference.clone()),
            None => None,
        };
        let ghost first = self.catalog();
        let ghost was = *self;
        let mut i: usize = 0;
        assert(results@.take(0) =~= Seq::<CatalogResult>::empty());
        while i < results.len()
            invariant
                i <= results@.len(),
                self.catalog() == first.all_ended(results@.take(i as int)),
                self.same_state(was),
            decreases results@.len() - i,
        {
            assert(results@.take(i + 1).drop_last() =~= results@.take(i as int));
            match &results[i] {
                CatalogResult::Models { provider, models } => {
                    self.add_listed(provider.as_str(), models);
                },
                CatalogResult::Failed { provider, error } => {
                    let note = concat3(provider.as_str(), ": ", error.as_str());
                    proof {
                        text::lemma_texts_push(self.errors@, note);
                    }
                    self.errors.push(note);
                },
                CatalogResult::Lost => {
                    let note = "Model list task failed".to_owned();
                    proof {
                        text::lemma_texts_push(self.errors@, note);
                    }
                    self.errors.push(note);
                },
            }
            i += 1;
        }
        assert(results@.take(i as int) =~= results@);
        self.pending = self.pending.saturating_sub(results.len());
        match selected {
            Some(reference) => {
                self.filter(Some(reference.as_str()));
            },
            None => {
                self.filter(None);
            },
        }
        true
    }

    /// Show the first row with a reference as switched on or off.
    pub fn set_enabled(&mut self, reference: &str, enabled: bool)
        requires
            old(self).wf(),
        ensures
            final(self).wf(),
            *final(self) == (Picker { choices: final(self).choices, ..*old(self) }),
            choices_view(final(self).choices@) == switched(
                choices_view(old(self).choices@),
                reference@,
                enabled,
            ),
    {
        let ghost c = choices_view(self.choices@);
        let ghost q = lowercase(self.query.text@);
        let mut i: usize = 0;
        while i < self.choices.len()
            invariant
                c == choices_view(self.choices@),
                i <= self.choices@.len(),
                forall|j: int| 0 <= j < i ==> (#[trigger] c[j]).reference != reference@,
                *self == *old(self),
                c == choices_view(old(self).choices@),
                self.wf(),
            decreases self.choices@.len() - i,
        {
            assert(c[i as int] == self.choices@[i as int]@);
            if same(self.choices[i].reference.as_str(), reference) {
                self.choices[i].enabled = Some(enabled);
                proof {
                    let d = choices_view(self.choices@);
                    assert(row_of(c, reference@) == i) by {
                        lemma_row_of(c, reference@, i as int);
                    }
                    assert(d =~= switched(c, reference@, enabled));
                    lemma_switched_ranking(c, d, self.query.text@, self.matches@);
                }
                return;
            }
            i += 1;
        }
        proof {
            assert(!referenced(c, reference@));
        }
    }
}

/// Position of the first row with a reference.
pub open spec fn row_of(c: Seq<ChoiceView>, reference: Seq<char>) -> int {
    choose|i: int|
        0 <= i < c.len() && (#[trigger] c[i]).reference == reference && forall|j: int|
            0 <= j < i ==> (#[trigger] c[j]).reference != reference
}

/// The rows with the first one of a reference switched.
pub open spec fn switched(c: Seq<ChoiceView>, reference: Seq<char>, enabled: bool) -> Seq<
    ChoiceView,
> {
    if referenced(c, reference) {
        let i = row_of(c, reference);
        c.update(i, ChoiceView { enabled: Some(enabled), ..c[i] })
    } else {
        c
    }
}

proof fn lemma_row_of(c: Seq<ChoiceView>, reference: Seq<char>, i: int)
    requires
        0 <= i < c.len(),
        c[i].reference == reference,
        forall|j: int| 0 <= j < i ==> (#[trigger] c[j]).reference != reference,
    ensures
        row_of(c, reference) == i,
        referenced(c, reference),
{
    let k = row_of(c, reference);
    assert(c[k].reference == reference);
    if i < k {
        assert(c[i].reference != reference);
    } else if k < i {
        assert(c[k].reference != reference);
    }
}

/// A ranking does not depend on what is switched on.
proof fn lemma_switched_ranking(
    c: Seq<ChoiceView>,
    d: Seq<ChoiceView>,
    query: Seq<char>,
    m: Seq<usize>,
)
    requires
        is_ranking(c, query, m),
        c.len() == d.len(),
        forall|i: int|
            0 <= i < c.len() ==> (#[trigger] c[i]).search == d[i].search && c[i].configured
                == d[i].configured && c[i].label == d[i].label,
    ensures
        is_ranking(d, query, m),
{
    let q = lowercase(query);
    assert forall|i: int| 0 <= i < d.len() && fuzzy((#[trigger] d[i]).search, q) is Some implies m.contains(
        i as usize,
    ) by {
        assert(c[i].search == d[i].search);
    }
    assert forall|p: int| 0 <= p < m.len() implies 0 <= (#[trigger] m[p]) < d.len() && fuzzy(
        d[m[p] as int].search,
        q,
    ) is Some by {
        assert(c[m[p] as int].search == d[m[p] as int].search);
    }
    assert forall|p: int, r: int| 0 <= p < r < m.len() implies ranks_before(
        rank_of(d, q, #[trigger] m[p] as int),
        rank_of(d, q, #[trigger] m[r] as int),
    ) by {
        assert(c[m[p] as int].search == d[m[p] as int].search);
        assert(c[m[r] as int].search == d[m[r] as int].search);
    }
}

/// The agents that can be chosen: the bare default where no agent is the
/// default, and every configured agent. Without a default agent one that is
/// literally called `default` is left out.
pub open spec fn agent_names(names: Seq<Seq<char>>, has_default: bool) -> Seq<Seq<char>> {
    if has_default {
        names
    } else {
        seq!["default"@] + names.filter(|n: Seq<char>| n != "default"@)
    }
}

/// The agents that can be chosen.
pub fn offered_agents(names: &Vec<String>, has_default: bool) -> (r: Vec<String>)
    ensures
        text::texts(r@) == agent_names(text::texts(names@), has_default),
{
    let ghost all = text::texts(names@);
    let ghost keep = |n: Seq<char>| n != "default"@;
    let mut out: Vec<String> = Vec::new();
    if !has_default {
        out.push("default".to_owned());
    }
    let ghost head = text::texts(out@);
    let mut i: usize = 0;
    proof {
        assert(all.take(0) =~= Seq::<Seq<char>>::empty());
        reveal(Seq::filter);
        assert(head =~= if has_default {
            Seq::<Seq<char>>::empty()
        } else {
            seq!["default"@]
        });
        assert(head + all.take(0).filter(keep) =~= head);
        assert(head + all.take(0) =~= head);
    }
    while i < names.len()
        invariant
            all == text::texts(names@),
            keep == (|n: Seq<char>| n != "default"@),
            i <= names@.len(),
            has_default ==> text::texts(out@) == head + all.take(i as int),
            !has_default ==> text::texts(out@) == head + all.take(i as int).filter(keep),
        decreases names@.len() - i,
    {
        let ghost next = all.take(i + 1);
        proof {
            reveal(Seq::filter);
            assert(next.drop_last() =~= all.take(i as int));
            assert(next.last() == names@[i as int]@);
            assert(next =~= all.take(i as int).push(names@[i as int]@));
        }
        if has_default || !same(names[i].as_str(), "default") {
            let ghost before = out@;
            proof {
                text::lemma_texts_push(before, names@[i as int]);
            }
            out.push(names[i].clone());
            proof {
                if has_default {
                    assert(text::texts(out@) =~= head + next);
                } else {
                    assert(keep(next.last()));
                    assert(text::texts(out@) =~= head + next.filter(keep));
                }
            }
        }
        i += 1;
    }
    assert(all.take(i as int) =~= all);
    proof {
        if has_default {
            assert(text::texts(out@) =~= all);
        }
    }
    out
}

/// The rows of an agent dialog; the default agent is marked.
pub open spec fn agent_rows(names: Seq<Seq<char>>, marked: Seq<char>) -> Seq<ChoiceView>
    decreases names.len(),
{
    if names.len() == 0 {
        Seq::empty()
    } else {
        let n = names.last();
        agent_rows(names.drop_last(), marked).push(
            new_choice(
                n,
                if n == marked {
                    n + " (default)"@
                } else {
                    n
                },
                true,
            ),
        )
    }
}

/// A preset under its name, with the borders and highlighting in use.
pub open spec fn named_preset(n: NamedTheme, p: Preset, current: Theme) -> bool {
    &&& n.name == p.name
    &&& n.theme == (Theme {
        ascii: current.ascii,
        syntax_highlighting: current.syntax_highlighting,
        ..p.theme
    })
}

/// The themes of a dialog: the configured one, then the presets.
pub open spec fn theme_choices(
    c: Seq<NamedTheme>,
    current: Theme,
    configured: Theme,
    presets: Seq<Preset>,
) -> bool {
    &&& c.len() == presets.len() + 1
    &&& c[0].name@ == "configured"@
    &&& c[0].theme == configured
    &&& forall|j: int|
        0 <= j < presets.len() ==> #[trigger] named_preset(c[j + 1], presets[j], current)
}

/// Name of the first theme with the given colors, from `k` on.
pub open spec fn theme_in_use(
    c: Seq<NamedTheme>,
    current: crate::model::ThemeView,
    k: int,
) -> Option<Seq<char>>
    decreases c.len() - k,
{
    if k < 0 || k >= c.len() {
        None
    } else if c[k].theme@ == current {
        Some(c[k].name@)
    } else {
        theme_in_use(c, current, k + 1)
    }
}

/// The first theme of the given name, from `k` on.
pub open spec fn theme_named(c: Seq<NamedTheme>, name: Seq<char>, k: int) -> Option<Theme>
    decreases c.len() - k,
{
    if k < 0 || k >= c.len() {
        None
    } else if c[k].name@ == name {
        Some(c[k].theme)
    } else {
        theme_named(c, name, k + 1)
    }
}

/// The rows of a theme dialog.
pub open spec fn theme_rows(presets: Seq<Preset>) -> Seq<ChoiceView>
    decreases presets.len(),
{
    if presets.len() == 0 {
        seq![new_choice("configured"@, "configured | Theme from config.json"@, true)]
    } else {
        let p = presets.last();
        theme_rows(presets.drop_last()).push(
            new_choice(p.name@, beside(p.name@, p.description@), true),
        )
    }
}

/// A dialog only grows by catalog results, and keeps every row it had.
pub proof fn law_catalog_only_grows(c: Catalog, r: Seq<CatalogResult>)
    ensures
        c.choices.len() <= c.all_ended(r).choices.len(),
        c.choices =~= c.all_ended(r).choices.take(c.choices.len() as int),
    decreases r.len(),
{
    if r.len() > 0 {
        let d = c.all_ended(r.drop_last());
        law_catalog_only_grows(c, r.drop_last());
        if let CatalogResult::Models { provider, models } = r.last() {
            lemma_listed_grows(d, provider@, models@);
        }
        let e = c.all_ended(r);
        assert(e.choices.take(d.choices.len() as int) =~= d.choices);
        assert(e.choices.take(c.choices.len() as int) =~= d.choices.take(c.choices.len() as int));
    }
}

proof fn lemma_listed_grows(c: Catalog, provider: Seq<char>, models: Seq<CatalogModel>)
    ensures
        c.choices.len() <= c.all_listed(provider, models).choices.len(),
        c.choices =~= c.all_listed(provider, models).choices.take(c.choices.len() as int),
    decreases models.len(),
{
    if models.len() > 0 {
        let d = c.all_listed(provider, models.drop_last());
        lemma_listed_grows(c, provider, models.drop_last());
        let e = d.listed(provider, models.last());
        assert(e.choices.take(c.choices.len() as int) =~= d.choices.take(c.choices.len() as int));
    }
}

/// Catalog requests that ended were taken in.
pub open spec fn polled(a: Picker, results: Seq<CatalogResult>, b: Picker, r: bool) -> bool {
    &&& r == (a.pending > 0 && results.len() > 0)
    &&& !r ==> b == a
    &&& r ==> {
        &&& b.wf()
        &&& b.catalog() == a.catalog().all_ended(results)
        &&& b.kind == a.kind
        &&& b.query == a.query
        &&& b.pending == if results.len() > a.pending {
            0
        } else {
            a.pending - results.len()
        }
        &&& b.selected == kept_row(
            choices_view(b.choices@),
            b.matches@,
            if a.matches@.len() > 0 {
                Some(
                    a.choices@[a.matches@[a.selected as int] as int].reference@,
                )
            } else {
                None
            },
        )
    }
}

} // verus!
