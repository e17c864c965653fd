//! What holds of the dialogs: which rows a search shows and in which order, and
//! what a key picks.
use crate::model::{KeyCode, KeyEvent};
use crate::picker;
use crate::picker::{
    Asked, Catalog, CatalogModel, ChoiceView, McpServer, ModelAlias, ModelRef, NamedTheme, Picker,
    Preset,
};
use crate::text;
use vstd::prelude::*;

verus! {

// ---------------------------------------------------------------------------
// Which rows a search shows
// ---------------------------------------------------------------------------

/// `places` are places of `s`, one behind the other, that spell `word`.
pub open spec fn spells(s: Seq<char>, word: Seq<char>, places: Seq<int>) -> bool {
    &&& places.len() == word.len()
    &&& forall|i: int| 0 <= i < places.len() ==> 0 <= #[trigger] places[i] < s.len()
    &&& forall|i: int| 0 <= i < places.len() ==> s[#[trigger] places[i]] == word[i]
    &&& forall|i: int, j: int|
        0 <= i < j < places.len() ==> #[trigger] places[i] < #[trigger] places[j]
}

/// The letters of `word` stand in `s` in order, with anything between them.
pub open spec fn spelled_in(s: Seq<char>, word: Seq<char>) -> bool {
    exists|places: Seq<int>| #[trigger] spells(s, word, places)
}

proof fn lemma_found_bounds(s: Seq<char>, word: Seq<char>, n: int)
    requires
        0 <= n <= s.len(),
    ensures
        0 <= picker::found(s, word, n).count <= word.len(),
        -1 <= picker::found(s, word, n).last < n,
    decreases n,
{
    if n > 0 {
        lemma_found_bounds(s, word, n - 1);
    }
}

/// What was found spells the beginning of the word.
proof fn lemma_found_spells(s: Seq<char>, word: Seq<char>, n: int)
    requires
        0 <= n <= s.len(),
    ensures
        exists|places: Seq<int>| #[trigger]
            spells(s.take(n), word.take(picker::found(s, word, n).count), places),
    decreases n,
{
    lemma_found_bounds(s, word, n);
    if n == 0 {
        let none = Seq::<int>::empty();
        assert(spells(s.take(0), word.take(0), none));
    } else {
        lemma_found_bounds(s, word, n - 1);
        lemma_found_spells(s, word, n - 1);
        let before = picker::found(s, word, n - 1);
        let c = before.count;
        let places = choose|places: Seq<int>| #[trigger]
            spells(s.take(n - 1), word.take(c), places);
        if c < word.len() && word[c] == s[n - 1] {
            let more = places.push(n - 1);
            assert forall|i: int| 0 <= i < more.len() implies s.take(n)[#[trigger] more[i]]
                == word.take(c + 1)[i] by {
                if i < c {
                    assert(s.take(n - 1)[places[i]] == word.take(c)[i]);
                }
            }
            assert forall|i: int, j: int| 0 <= i < j < more.len() implies #[trigger] more[i]
                < #[trigger] more[j] by {
                if j < c {
                    assert(places[i] < places[j]);
                } else {
                    assert(places[i] < n - 1);
                }
            }
            assert(spells(s.take(n), word.take(c + 1), more));
        } else {
            assert forall|i: int| 0 <= i < places.len() implies s.take(n)[#[trigger] places[i]]
                == word.take(c)[i] by {
                assert(s.take(n - 1)[places[i]] == word.take(c)[i]);
            }
            assert(spells(s.take(n), word.take(c), places));
        }
    }
}

/// Whatever is spelled is found, and no later than it is spelled.
proof fn lemma_spelled_found(s: Seq<char>, word: Seq<char>, places: Seq<int>, k: int)
    requires
        spells(s, word, places),
        0 < k <= word.len(),
    ensures
        picker::found(s, word, places[k - 1] + 1).count >= k,
    decreases k,
{
    let p = places[k - 1];
    lemma_found_bounds(s, word, p);
    if k > 1 {
        lemma_spelled_found(s, word, places, k - 1);
        assert(places[k - 2] < places[k - 1]);
        lemma_found_grows(s, word, places[k - 2] + 1, p);
    }
    let before = picker::found(s, word, p);
    assert(before.count >= k - 1);
    assert(s[places[k - 1]] == word[k - 1]);
}

proof fn lemma_found_grows(s: Seq<char>, word: Seq<char>, m: int, n: int)
    requires
        0 <= m <= n <= s.len(),
    ensures
        picker::found(s, word, m).count <= picker::found(s, word, n).count,
    decreases n - m,
{
    if m < n {
        lemma_found_grows(s, word, m, n - 1);
    }
}

/// A word of a search matches a text if and only if its letters stand there in
/// order.
pub proof fn law_words_match_in_order(s: Seq<char>, word: Seq<char>)
    ensures
        picker::word_score(s, word) is Some <==> spelled_in(s, word),
{
    let n = s.len() as int;
    lemma_found_bounds(s, word, n);
    lemma_found_spells(s, word, n);
    assert(s.take(n) =~= s);
    if picker::word_score(s, word) is Some {
        assert(word.take(word.len() as int) =~= word);
    }
    if spelled_in(s, word) {
        let places = choose|places: Seq<int>| #[trigger] spells(s, word, places);
        if word.len() > 0 {
            let k = word.len() as int;
            lemma_spelled_found(s, word, places, k);
            lemma_found_grows(s, word, places[k - 1] + 1, n);
        }
    }
}

/// A search matches a text if and only if each of its words does. A search
/// without a word matches every text.
pub proof fn law_searches_match_word_by_word(s: Seq<char>, words: Seq<Seq<char>>)
    ensures
        picker::words_score(s, words) is Some <==> forall|k: int|
            0 <= k < words.len() ==> spelled_in(s, #[trigger] words[k]),
    decreases words.len(),
{
    if words.len() > 0 {
        let front = words.drop_last();
        law_searches_match_word_by_word(s, front);
        law_words_match_in_order(s, words.last());
        if picker::words_score(s, words) is Some {
            assert forall|k: int| 0 <= k < words.len() implies spelled_in(
                s,
                #[trigger] words[k],
            ) by {
                if k < front.len() {
                    assert(front[k] == words[k]);
                }
            }
        }
        if forall|k: int| 0 <= k < words.len() ==> spelled_in(s, #[trigger] words[k]) {
            assert forall|k: int| 0 <= k < front.len() implies spelled_in(
                s,
                #[trigger] front[k],
            ) by {
                assert(words[k] == front[k]);
            }
            assert(words[words.len() - 1] == words.last());
        }
    }
}

/// The rows of a dialog are those choices that match its search, each once.
pub proof fn law_matches_are_what_was_searched(p: Picker, i: usize)
    requires
        p.wf(),
        i < p.choices@.len(),
    ensures
        p.matches@.contains(i) <==> forall|k: int|
            0 <= k < text::words(picker::lowercase(p.query.text@)).len() ==> spelled_in(
                p.choices@[i as int].search@,
                #[trigger] text::words(picker::lowercase(p.query.text@))[k],
            ),
        forall|a: int, b: int|
            0 <= a < b < p.matches@.len() ==> #[trigger] p.matches@[a] != #[trigger] p.matches@[b],
        forall|a: int| 0 <= a < p.matches@.len() ==> #[trigger] p.matches@[a] < p.choices@.len(),
{
    let c = picker::choices_view(p.choices@);
    let q = picker::lowercase(p.query.text@);
    assert(c[i as int] == p.choices@[i as int]@);
    law_searches_match_word_by_word(c[i as int].search, text::words(q));
    if p.matches@.contains(i) {
        let a = choose|a: int| 0 <= a < p.matches@.len() && p.matches@[a] == i;
        assert(picker::fuzzy(c[p.matches@[a] as int].search, q) is Some);
    }
    if picker::fuzzy(c[i as int].search, q) is Some {
        assert((i as int) as usize == i);
    }
}

// ---------------------------------------------------------------------------
// Their order
// ---------------------------------------------------------------------------

/// `a` and `b` agree up to some place, where `a` ends or has the smaller
/// character.
pub open spec fn alphabetical(a: Seq<char>, b: Seq<char>) -> bool {
    exists|k: int| #[trigger] differ_at(a, b, k)
}

/// `a` and `b` agree in their first `k` characters, and there `a` ends or has
/// the smaller character.
pub open spec fn differ_at(a: Seq<char>, b: Seq<char>, k: int) -> bool {
    &&& 0 <= k <= a.len()
    &&& k <= b.len()
    &&& a.take(k) == b.take(k)
    &&& k == a.len() || (k < b.len() && (a[k] as int) < (b[k] as int))
}

proof fn lemma_alphabetical(a: Seq<char>, b: Seq<char>)
    ensures
        picker::not_after(a, b) ==> alphabetical(a, b),
    decreases a.len(),
{
    if a.len() == 0 {
        assert(a.take(0) =~= b.take(0));
        assert(differ_at(a, b, 0));
    } else if b.len() > 0 {
        if a[0] == b[0] {
            let x = a.drop_first();
            let y = b.drop_first();
            lemma_alphabetical(x, y);
            if picker::not_after(a, b) {
                let k = choose|k: int| #[trigger] differ_at(x, y, k);
                assert forall|i: int| 0 <= i < k + 1 implies #[trigger] a[i] == b[i] by {
                    if i > 0 {
                        assert(x.take(k)[i - 1] == y.take(k)[i - 1]);
                    }
                }
                assert(a.take(k + 1) =~= b.take(k + 1));
                assert(differ_at(a, b, k + 1));
            }
        } else {
            assert(a.take(0) =~= b.take(0));
            if picker::not_after(a, b) {
                assert(differ_at(a, b, 0));
            }
        }
    }
}

/// How well the row at `k` matches the search.
pub open spec fn score_at(p: Picker, k: int) -> int {
    picker::fuzzy(
        p.choices@[p.matches@[k] as int]@.search,
        picker::lowercase(p.query.text@),
    )->0
}

/// The better a row matches the higher it stands. Among rows that match alike
/// the configured ones come first, and then the labels are in alphabetical
/// order.
pub proof fn law_better_matches_come_first(p: Picker, k: int, l: int)
    requires
        p.wf(),
        0 <= k < l < p.matches@.len(),
    ensures
        score_at(p, k) >= score_at(p, l),
        score_at(p, k) == score_at(p, l) && p.choices@[p.matches@[l] as int].configured
            ==> p.choices@[p.matches@[k] as int].configured,
        score_at(p, k) == score_at(p, l) && p.choices@[p.matches@[l] as int].configured
            == p.choices@[p.matches@[k] as int].configured ==> alphabetical(
            p.choices@[p.matches@[k] as int].label@,
            p.choices@[p.matches@[l] as int].label@,
        ),
{
    let c = picker::choices_view(p.choices@);
    let q = picker::lowercase(p.query.text@);
    let i = p.matches@[k] as int;
    let j = p.matches@[l] as int;
    assert(c[i] == p.choices@[i]@ && c[j] == p.choices@[j]@);
    assert(picker::ranks_before(picker::rank_of(c, q, i), picker::rank_of(c, q, j)));
    lemma_alphabetical(c[i].label, c[j].label);
}

/// Where a letter stands first.
pub open spec fn first_at(s: Seq<char>, c: char, i: int) -> bool {
    0 <= i < s.len() && s[i] == c && forall|j: int| 0 <= j < i ==> #[trigger] s[j] != c
}

proof fn lemma_none_found(s: Seq<char>, word: Seq<char>, n: int)
    requires
        0 <= n <= s.len(),
        word.len() > 0,
        forall|j: int| 0 <= j < n ==> #[trigger] s[j] != word[0],
    ensures
        picker::found(s, word, n) == (picker::Found { count: 0, last: -1, score: 0 }),
    decreases n,
{
    if n > 0 {
        lemma_none_found(s, word, n - 1);
    }
}

proof fn lemma_stays_found(s: Seq<char>, word: Seq<char>, m: int, n: int)
    requires
        0 <= m <= n <= s.len(),
        ({
            let c = picker::found(s, word, m).count;
            c >= word.len() || forall|j: int| m <= j < n ==> #[trigger] s[j] != word[c]
        }),
    ensures
        picker::found(s, word, n) == picker::found(s, word, m),
    decreases n - m,
{
    if m < n {
        lemma_stays_found(s, word, m, n - 1);
    }
}

/// The further in front a letter stands the better it matches; at the start of
/// a word it matches better than inside of one that is as far in front.
pub proof fn law_earlier_letters_match_better(
    s: Seq<char>,
    t: Seq<char>,
    c: char,
    i: int,
    j: int,
)
    requires
        first_at(s, c, i),
        first_at(t, c, j),
    ensures
        picker::word_score(s, seq![c]) is Some,
        ({
            let starts = |s: Seq<char>, i: int| i == 0 || !picker::alphanumeric(s[i - 1]);
            &&& starts(s, i) == starts(t, j) && i < j ==> picker::word_score(s, seq![c])->0
                > picker::word_score(t, seq![c])->0
            &&& i == j && starts(s, i) && !starts(t, j) ==> picker::word_score(s, seq![c])->0
                > picker::word_score(t, seq![c])->0
        }),
{
    let w = seq![c];
    lemma_none_found(s, w, i);
    lemma_none_found(t, w, j);
    assert(picker::found(s, w, i + 1).count == 1);
    assert(picker::found(t, w, j + 1).count == 1);
    lemma_stays_found(s, w, i + 1, s.len() as int);
    lemma_stays_found(t, w, j + 1, t.len() as int);
}

/// Two letters side by side match better than the same two letters apart, and
/// the closer the better.
pub proof fn law_closer_letters_match_better(
    s: Seq<char>,
    t: Seq<char>,
    c: char,
    d: char,
    i: int,
    j: int,
    k: int,
)
    requires
        first_at(s, c, i),
        first_at(t, c, i),
        s.take(i + 1) == t.take(i + 1),
        first_at(s.skip(i + 1), d, j),
        first_at(t.skip(i + 1), d, k),
        j < k,
        j == 0 || picker::alphanumeric(s[i + j]) == picker::alphanumeric(t[i + k]),
    ensures
        picker::word_score(s, seq![c, d]) is Some,
        picker::word_score(t, seq![c, d]) is Some,
        picker::word_score(s, seq![c, d])->0 > picker::word_score(t, seq![c, d])->0,
{
    let w = seq![c, d];
    lemma_none_found(s, w, i);
    lemma_none_found(t, w, i);
    let a = picker::found(s, w, i + 1);
    let b = picker::found(t, w, i + 1);
    assert(a.count == 1 && b.count == 1);
    if i > 0 {
        assert(s.take(i + 1)[i - 1] == s[i - 1]);
        assert(t.take(i + 1)[i - 1] == t[i - 1]);
    }
    assert(a == picker::Found { count: 1, last: i, score: picker::points(s, i, -1) });
    assert(b == picker::Found { count: 1, last: i, score: picker::points(t, i, -1) });
    assert(a.score == b.score);
    assert forall|n: int| i + 1 <= n < i + 1 + j implies #[trigger] s[n] != w[1] by {
        assert(s.skip(i + 1)[n - i - 1] != d);
    }
    assert forall|n: int| i + 1 <= n < i + 1 + k implies #[trigger] t[n] != w[1] by {
        assert(t.skip(i + 1)[n - i - 1] != d);
    }
    lemma_stays_found(s, w, i + 1, i + 1 + j);
    lemma_stays_found(t, w, i + 1, i + 1 + k);
    assert(s[i + 1 + j] == s.skip(i + 1)[j]);
    assert(t[i + 1 + k] == t.skip(i + 1)[k]);
    assert(picker::found(s, w, i + 2 + j).count == 2);
    assert(picker::found(t, w, i + 2 + k).count == 2);
    lemma_stays_found(s, w, i + 2 + j, s.len() as int);
    lemma_stays_found(t, w, i + 2 + k, t.len() as int);
}

// ---------------------------------------------------------------------------
// What a key picks
// ---------------------------------------------------------------------------

/// A key without modifiers that count.
pub open spec fn bare(key: KeyEvent, code: KeyCode) -> bool {
    key.code == code && !key.modifiers.control && !key.modifiers.alt
}

/// The choice in the row at `k`.
pub open spec fn reference_at(p: Picker, k: int) -> Seq<char> {
    p.choices@[p.matches@[k] as int].reference@
}

/// Enter picks the selected row, and only Enter picks.
pub proof fn law_enter_picks_the_selected_row(p: Picker, key: KeyEvent)
    requires
        p.wf(),
    ensures
        key.code == KeyCode::Enter && p.matches@.len() > 0 ==> picker::key_choice(p, key)
            == Asked::Select(reference_at(p, p.selected as int)),
        picker::key_choice(p, key) is Select ==> key.code == KeyCode::Enter,
        picker::key_choice(p, key) is Close ==> key.code == KeyCode::Esc || (key.code
            == KeyCode::Char('c') && key.modifiers.control),
        key.code == KeyCode::Esc ==> picker::key_choice(p, key) is Close,
{
}

/// Down goes to the next row and Up to the one before, as far as there is one;
/// one undoes the other.
pub proof fn law_rows_are_walked(
    a: Picker,
    down: KeyEvent,
    b: Picker,
    up: KeyEvent,
    c: Picker,
)
    requires
        a.wf(),
        a.matches@.len() > 0,
        down.code == KeyCode::Down || down.code == KeyCode::Tab,
        up.code == KeyCode::Up || up.code == KeyCode::BackTab,
        picker::key_effect(a, down, b),
        picker::key_effect(b, up, c),
    ensures
        b.matches == a.matches && b.choices == a.choices && b.query == a.query,
        a.selected + 1 < a.matches@.len() ==> b.selected == a.selected + 1 && c.selected
            == a.selected,
        a.selected + 1 == a.matches@.len() ==> b.selected == a.selected,
        b.selected > 0 ==> c.selected == b.selected - 1,
        b.selected == 0 ==> c.selected == 0,
{
}

/// A page is ten rows, and the ends are as far as it goes.
pub proof fn law_pages_are_ten_rows(a: Picker, key: KeyEvent, b: Picker)
    requires
        a.wf(),
        a.matches@.len() > 0,
        picker::key_effect(a, key, b),
    ensures
        key.code == KeyCode::PageDown && a.selected + 10 < a.matches@.len() ==> b.selected
            == a.selected + 10,
        key.code == KeyCode::PageDown && a.selected + 10 >= a.matches@.len() ==> b.selected
            == a.matches@.len() - 1,
        key.code == KeyCode::PageUp && a.selected >= 10 ==> b.selected == a.selected - 10,
        key.code == KeyCode::PageUp && a.selected < 10 ==> b.selected == 0,
        key.code == KeyCode::Home && key.modifiers.control ==> b.selected == 0,
        key.code == KeyCode::End && key.modifiers.control ==> b.selected == a.matches@.len() - 1,
{
}

/// A letter goes into the search at the cursor, the best match is selected, and
/// Backspace takes the letter out again.
pub proof fn law_searches_are_typed(
    a: Picker,
    key: KeyEvent,
    letter: char,
    b: Picker,
    back: KeyEvent,
    c: Picker,
)
    requires
        a.wf(),
        0 <= a.query.at() <= a.query.text@.len(),
        bare(key, KeyCode::Char(letter)),
        back.code == KeyCode::Backspace,
        picker::key_effect(a, key, b),
        picker::key_effect(b, back, c),
    ensures
        b.query.text@ == a.query.text@.take(a.query.at()) + seq![letter] + a.query.text@.skip(
            a.query.at(),
        ),
        b.query.at() == a.query.at() + 1,
        b.selected == 0,
        c.query.text@ == a.query.text@,
        c.query.at() == a.query.at(),
{
    let s = a.query.text@;
    let k = a.query.at();
    let t = b.query.text@;
    assert(t.take(k) =~= s.take(k));
    assert(t.skip(k + 1) =~= s.skip(k));
    assert(s.take(k) + s.skip(k) =~= s);
}

/// A row that is to be kept stays selected as long as it matches.
pub proof fn law_kept_rows_stay_selected(c: Seq<ChoiceView>, m: Seq<usize>, reference: Seq<char>, k: int)
    requires
        0 <= k < m.len(),
        c[m[k] as int].reference == reference,
    ensures
        ({
            let row = picker::kept_row(c, m, Some(reference));
            0 <= row < m.len() && c[m[row] as int].reference == reference
        }),
{
    lemma_match_of(c, m, reference, 0, k);
}

proof fn lemma_match_of(c: Seq<ChoiceView>, m: Seq<usize>, reference: Seq<char>, p: int, k: int)
    requires
        0 <= p <= k < m.len(),
        c[m[k] as int].reference == reference,
    ensures
        ({
            let row = picker::match_of(c, m, reference, p);
            p <= row < m.len() && c[m[row] as int].reference == reference
        }),
    decreases k - p,
{
    if c[m[p] as int].reference != reference {
        lemma_match_of(c, m, reference, p + 1, k);
    }
}

/// Switching a server changes the state of its row, and no other row.
pub proof fn law_switching_shows(c: Seq<ChoiceView>, reference: Seq<char>, on: bool, k: int)
    requires
        0 <= k < c.len(),
        c[k].reference == reference,
        forall|j: int| 0 <= j < c.len() && j != k ==> (#[trigger] c[j]).reference != reference,
    ensures
        ({
            let r = picker::switched(c, reference, on);
            &&& r.len() == c.len()
            &&& r[k].enabled == Some(on)
            &&& r[k].reference == reference && r[k].label == c[k].label
            &&& forall|j: int| 0 <= j < c.len() && j != k ==> #[trigger] r[j] == c[j]
        }),
{
    assert(c[k].reference == reference);
    assert(picker::referenced(c, reference));
    let i = picker::row_of(c, reference);
    assert(0 <= k < c.len() && c[k].reference == reference && forall|j: int|
        0 <= j < k ==> (#[trigger] c[j]).reference != reference);
    assert(i == k);
}

/// The theme that a name stands for is one of that name.
pub proof fn law_themes_are_found_by_name(c: Seq<NamedTheme>, name: Seq<char>, from: int, k: int)
    requires
        0 <= from <= k < c.len(),
        c[k].name@ == name,
        forall|j: int| from <= j < k ==> (#[trigger] c[j]).name@ != name,
    ensures
        picker::theme_named(c, name, from) == Some(c[k].theme),
    decreases k - from,
{
    if from < k {
        law_themes_are_found_by_name(c, name, from + 1, k);
    }
}

/// Every model that a provider lists can be chosen by its id; a model that was
/// there before is not added again.
pub proof fn law_listed_models_can_be_chosen(
    c: Catalog,
    provider: Seq<char>,
    models: Seq<CatalogModel>,
    k: int,
)
    requires
        0 <= k < models.len(),
    ensures
        ({
            let id = provider + ":"@ + models[k].id@;
            let r = c.all_listed(provider, models);
            &&& r.known.contains(id)
            &&& !c.known.contains(id) ==> picker::referenced(r.choices, id)
            &&& c.choices.len() <= r.choices.len()
            &&& forall|j: int|
                c.choices.len() <= j < r.choices.len() ==> !(#[trigger] r.choices[j]).configured
            &&& r.errors == c.errors
        }),
    decreases models.len(),
{
    let front = models.drop_last();
    let before = c.all_listed(provider, front);
    let r = c.all_listed(provider, models);
    let id = picker::model_id(provider, models[k].id@);
    lemma_listing_adds(c, provider, front);
    let last = picker::model_id(provider, models.last().id@);
    if !before.known.contains(last) {
        assert(r.known[r.known.len() - 1] == last);
        assert(r.choices[r.choices.len() - 1].reference == last);
    }
    if k < front.len() {
        law_listed_models_can_be_chosen(c, provider, front, k);
        assert(r.known.take(before.known.len() as int) =~= before.known);
        assert(r.choices.take(before.choices.len() as int) =~= before.choices);
        lemma_still_there(before, r, id);
    } else if before.known.contains(id) && !c.known.contains(id) {
        lemma_known_are_listed(c, provider, front, id);
    }
}

proof fn lemma_still_there(a: Catalog, b: Catalog, id: Seq<char>)
    requires
        a.known.contains(id),
        a.known.len() <= b.known.len(),
        b.known.take(a.known.len() as int) == a.known,
        a.choices.len() <= b.choices.len(),
        b.choices.take(a.choices.len() as int) == a.choices,
    ensures
        b.known.contains(id),
        picker::referenced(a.choices, id) ==> picker::referenced(b.choices, id),
{
    let i = choose|i: int| 0 <= i < a.known.len() && a.known[i] == id;
    assert(b.known.take(a.known.len() as int)[i] == b.known[i]);
    if picker::referenced(a.choices, id) {
        let j = choose|j: int| 0 <= j < a.choices.len() && (#[trigger] a.choices[j]).reference == id;
        assert(b.choices.take(a.choices.len() as int)[j] == b.choices[j]);
    }
}

proof fn lemma_listing_adds(c: Catalog, provider: Seq<char>, models: Seq<CatalogModel>)
    ensures
        ({
            let r = c.all_listed(provider, models);
            &&& r.errors == c.errors
            &&& c.known.len() <= r.known.len()
            &&& r.known.take(c.known.len() as int) == c.known
            &&& c.choices.len() <= r.choices.len()
            &&& r.choices.take(c.choices.len() as int) == c.choices
            &&& forall|j: int|
                c.choices.len() <= j < r.choices.len() ==> !(#[trigger] r.choices[j]).configured
        }),
    decreases models.len(),
{
    if models.len() > 0 {
        lemma_listing_adds(c, provider, models.drop_last());
        let before = c.all_listed(provider, models.drop_last());
        let r = c.all_listed(provider, models);
        assert(r.known.take(c.known.len() as int) =~= before.known.take(c.known.len() as int));
        assert(r.choices.take(c.choices.len() as int) =~= before.choices.take(
            c.choices.len() as int,
        ));
    } else {
        assert(c.known.take(c.known.len() as int) =~= c.known);
        assert(c.choices.take(c.choices.len() as int) =~= c.choices);
    }
}

proof fn lemma_known_are_listed(
    c: Catalog,
    provider: Seq<char>,
    models: Seq<CatalogModel>,
    id: Seq<char>,
)
    requires
        !c.known.contains(id),
        c.all_listed(provider, models).known.contains(id),
    ensures
        picker::referenced(c.all_listed(provider, models).choices, id),
    decreases models.len(),
{
    if models.len() > 0 {
        let front = models.drop_last();
        let before = c.all_listed(provider, front);
        let r = c.all_listed(provider, models);
        let last = picker::model_id(provider, models.last().id@);
        if before.known.contains(id) {
            lemma_known_are_listed(c, provider, front, id);
            if !before.known.contains(last) {
                assert(r.known.take(before.known.len() as int) =~= before.known);
                assert(r.choices.take(before.choices.len() as int) =~= before.choices);
                lemma_still_there(before, r, id);
            }
        } else {
            let i = choose|i: int| 0 <= i < r.known.len() && r.known[i] == id;
            if i < before.known.len() {
                assert(before.known[i] == id);
            }
            assert(r.choices[r.choices.len() - 1].reference == id);
        }
    }
}

// ---------------------------------------------------------------------------
// What the dialogs hold
// ---------------------------------------------------------------------------

/// A row is searched by what it shows, in small letters.
pub proof fn law_rows_are_searched_by_label(reference: Seq<char>, label: Seq<char>, configured: bool)
    requires
        forall|i: int| 0 <= i < label.len() ==> !text::control(#[trigger] label[i]),
    ensures
        ({
            let c = picker::new_choice(reference, label, configured);
            &&& c.reference == reference
            &&& c.label == label
            &&& c.search == picker::lowercase(label)
            &&& c.configured == configured
        }),
{
    lemma_nothing_dropped(label);
}

pub proof fn lemma_nothing_dropped(s: Seq<char>)
    requires
        forall|i: int| 0 <= i < s.len() ==> !text::control(#[trigger] s[i]),
    ensures
        picker::printable(s) == s,
    decreases s.len(),
{
    reveal(Seq::filter);
    let keep = |c: char| !text::control(c);
    if s.len() > 0 {
        let front = s.drop_last();
        assert forall|i: int| 0 <= i < front.len() implies !text::control(#[trigger] front[i]) by {
            assert(s[i] == front[i]);
        }
        lemma_nothing_dropped(front);
        assert(keep(s.last()));
        assert(s.filter(keep) == front.filter(keep).push(s.last()));
        assert(front.push(s.last()) =~= s);
    } else {
        assert(s.filter(keep) =~= s);
    }
}

/// The dialog of the servers has a row for each of them, which picks it and
/// shows whether it is on.
pub proof fn law_servers_have_rows(r: Picker, servers: Seq<McpServer>, i: int)
    requires
        picker::mcps_dialog(r, servers),
        0 <= i < servers.len(),
    ensures
        r.choices@[i].reference@ == servers[i].name@,
        r.choices@[i].enabled == Some(servers[i].enabled),
        r.choices@[i].label@ == picker::printable(servers[i].name@ + " | "@ + servers[i].uuid@),
        r.choices@.len() == servers.len(),
{
    assert(r.choices@[i]@.reference == servers[i].name@);
    assert(r.choices@[i]@.label == r.choices@[i].label@);
}

/// The dialog of the agents has a row for each of them, which picks it. Only
/// the default one is marked.
pub proof fn law_agents_have_rows(names: Seq<Seq<char>>, marked: Seq<char>, i: int)
    requires
        0 <= i < names.len(),
    ensures
        ({
            let rows = picker::agent_rows(names, marked);
            &&& rows.len() == names.len()
            &&& rows[i].reference == names[i]
            &&& rows[i].label == picker::printable(
                if names[i] == marked {
                    names[i] + " (default)"@
                } else {
                    names[i]
                },
            )
        }),
    decreases names.len(),
{
    let front = names.drop_last();
    if i < front.len() {
        law_agents_have_rows(front, marked, i);
    } else if front.len() > 0 {
        law_agents_have_rows(front, marked, 0);
    } else {
        assert(picker::agent_rows(front, marked).len() == 0);
    }
}

/// The dialog of the themes starts with the configured one, and has a row for
/// each preset, which picks it.
pub proof fn law_themes_have_rows(presets: Seq<Preset>, i: int)
    requires
        0 <= i < presets.len(),
    ensures
        ({
            let rows = picker::theme_rows(presets);
            &&& rows.len() == presets.len() + 1
            &&& rows[0].reference == "configured"@
            &&& rows[i + 1].reference == presets[i].name@
            &&& rows[i + 1].label == picker::printable(
                presets[i].name@ + " | "@ + presets[i].description@,
            )
        }),
    decreases presets.len(),
{
    let front = presets.drop_last();
    lemma_theme_rows(front);
    if i < front.len() {
        law_themes_have_rows(front, i);
    }
}

proof fn lemma_theme_rows(presets: Seq<Preset>)
    ensures
        picker::theme_rows(presets).len() == presets.len() + 1,
        picker::theme_rows(presets)[0].reference == "configured"@,
    decreases presets.len(),
{
    if presets.len() > 0 {
        lemma_theme_rows(presets.drop_last());
    }
}

/// The dialog of the models offers every model that has a name, the default one
/// and the one in use, all of them as configured, and starts on the one in use.
pub proof fn law_models_have_rows(
    r: Picker,
    aliases: Seq<ModelAlias>,
    default: ModelRef,
    current: ModelRef,
    reference: Option<Seq<char>>,
    i: int,
)
    requires
        picker::models_dialog(r, aliases, default, current, reference),
        0 <= i < aliases.len(),
    ensures
        ({
            let c = picker::choices_view(r.choices@);
            let now = match reference {
                Some(s) => s,
                None => current.provider@ + ":"@ + current.model@,
            };
            &&& picker::referenced(c, aliases[i].alias@)
            &&& picker::referenced(c, default.provider@ + ":"@ + default.model@)
            &&& picker::referenced(c, now)
            &&& forall|j: int| 0 <= j < c.len() ==> (#[trigger] c[j]).configured
            &&& r.matches@.len() > 0 && (exists|k: int|
                0 <= k < r.matches@.len() && c[#[trigger] r.matches@[k] as int].reference == now)
                ==> c[r.matches@[r.selected as int] as int].reference == now
        }),
{
    let first = Catalog { choices: Seq::empty(), known: Seq::empty(), errors: Seq::empty() };
    let usual = picker::model_id(default.provider@, default.model@);
    let here = picker::model_id(current.provider@, current.model@);
    let now = match reference {
        Some(s) => s,
        None => here,
    };
    let named = first.aliases(aliases);
    lemma_aliases(first, aliases, i);
    lemma_configured(named, usual, usual, aliases[i].alias@);
    let more = named.configured(usual, usual);
    lemma_configured(more, now, here, aliases[i].alias@);
    lemma_configured(more, now, here, usual);
    let c = picker::choices_view(r.choices@);
    if exists|k: int| 0 <= k < r.matches@.len() && c[#[trigger] r.matches@[k] as int].reference == now {
        let k = choose|k: int|
            0 <= k < r.matches@.len() && c[#[trigger] r.matches@[k] as int].reference == now;
        law_kept_rows_stay_selected(c, r.matches@, now, k);
    }
}

/// Adding a configured model offers it, and keeps what was offered.
proof fn lemma_configured(c: Catalog, reference: Seq<char>, id: Seq<char>, other: Seq<char>)
    requires
        forall|j: int| 0 <= j < c.choices.len() ==> (#[trigger] c.choices[j]).configured,
    ensures
        picker::referenced(c.configured(reference, id).choices, reference),
        picker::referenced(c.choices, other) ==> picker::referenced(
            c.configured(reference, id).choices,
            other,
        ),
        forall|j: int|
            0 <= j < c.configured(reference, id).choices.len() ==> (#[trigger] c.configured(
                reference,
                id,
            ).choices[j]).configured,
{
    let r = c.configured(reference, id);
    if !picker::referenced(c.choices, reference) {
        assert(r.choices[r.choices.len() - 1].reference == reference);
    }
    if picker::referenced(c.choices, other) {
        let j = choose|j: int| 0 <= j < c.choices.len() && (#[trigger] c.choices[j]).reference == other;
        assert(r.choices[j] == c.choices[j]);
    }
}

proof fn lemma_aliases(c: Catalog, aliases: Seq<ModelAlias>, i: int)
    requires
        forall|j: int| 0 <= j < c.choices.len() ==> (#[trigger] c.choices[j]).configured,
    ensures
        0 <= i < aliases.len() ==> picker::referenced(c.aliases(aliases).choices, aliases[i].alias@),
        forall|j: int|
            0 <= j < c.aliases(aliases).choices.len() ==> (#[trigger] c.aliases(
                aliases,
            ).choices[j]).configured,
    decreases aliases.len(),
{
    if aliases.len() > 0 {
        let m = aliases.last();
        let front = aliases.drop_last();
        lemma_aliases(c, front, i);
        lemma_configured(
            c.aliases(front),
            m.alias@,
            picker::model_id(m.model.provider@, m.model.model@),
            aliases[i].alias@,
        );
    }
}

// ---------------------------------------------------------------------------
// Catalogs
// ---------------------------------------------------------------------------

/// A catalog that could not be loaded is reported with its provider, and leaves
/// what there is alone.
pub proof fn law_failed_catalogs_are_reported(c: Catalog, r: picker::CatalogResult)
    requires
        !(r is Models),
    ensures
        c.ended(r).choices == c.choices,
        c.ended(r).known == c.known,
        c.ended(r).errors.len() == c.errors.len() + 1,
        r matches picker::CatalogResult::Failed { provider, error } ==> c.ended(r).errors.last()
            == provider@ + ": "@ + error@,
{
}

/// The row of a model that a provider lists shows its id, and its name where
/// that is another.
pub proof fn law_listed_models_show_their_name(c: Catalog, provider: Seq<char>, m: CatalogModel)
    requires
        !c.known.contains(provider + ":"@ + m.id@),
    ensures
        ({
            let r = c.listed(provider, m);
            let id = provider + ":"@ + m.id@;
            &&& r.choices.len() == c.choices.len() + 1
            &&& r.choices.last().reference == id
            &&& !r.choices.last().configured
            &&& m.name@ == m.id@ ==> r.choices.last().label == picker::printable(id)
            &&& m.name@ != m.id@ ==> r.choices.last().label == picker::printable(
                id + " | "@ + m.name@,
            )
            &&& r.known == c.known.push(id)
        }),
{
}

/// A dialog of models says that it is loading while it is, and then which
/// catalogs could not be loaded.
pub proof fn law_dialogs_say_what_is_missing(p: Picker)
    requires
        p.kind is Models,
    ensures
        p.pending > 0 ==> picker::hint_of(p) == "Loading provider model lists..."@,
        p.pending == 0 && p.errors@.len() > 0 ==> picker::hint_of(p)
            == "Some catalogs unavailable: "@ + text::joined(text::texts(p.errors@), "; "@),
{
}

/// Every kind of dialog has a title of its own.
pub proof fn law_dialogs_have_titles(p: Picker)
    ensures
        p.kind is Models ==> picker::title_of(p) == "Models"@,
        p.kind is Agents ==> picker::title_of(p) == "Agents"@,
        p.kind is Mcps ==> picker::title_of(p) == "MCP servers"@,
        p.kind is Themes ==> picker::title_of(p) == "Themes"@,
{
}

/// Delete takes out the letter at the cursor, Ctrl+U all letters. Left, Right,
/// Home and End move the cursor and leave the search and its matches alone.
pub proof fn law_searches_are_edited(a: Picker, key: KeyEvent, b: Picker)
    requires
        0 <= a.query.at() <= a.query.text@.len(),
        picker::key_effect(a, key, b),
        !key.modifiers.alt,
    ensures
        ({
            let s = a.query.text@;
            let k = a.query.at();
            let moves = key.code == KeyCode::Left || key.code == KeyCode::Right || (!key.modifiers.control
                && (key.code == KeyCode::Home || key.code == KeyCode::End));
            &&& key.code == KeyCode::Delete && k < s.len() ==> b.query.text@ == s.take(k) + s.skip(
                k + 1,
            ) && b.query.at() == k && b.selected == 0
            &&& key.code == KeyCode::Char('u') && key.modifiers.control ==> b.query.text@.len() == 0
            &&& moves ==> b.query.text@ == s && b.matches == a.matches && b.selected == a.selected
            &&& key.code == KeyCode::Left && k > 0 ==> b.query.at() == k - 1
            &&& key.code == KeyCode::Right && k < s.len() ==> b.query.at() == k + 1
            &&& key.code == KeyCode::Home && !key.modifiers.control ==> b.query.at() == 0
            &&& key.code == KeyCode::End && !key.modifiers.control ==> b.query.at() == s.len()
        }),
{
}

/// A label loses its control codes and nothing else.
pub proof fn law_labels_lose_control_codes(s: Seq<char>, c: char)
    ensures
        text::control(c) ==> picker::printable(s.push(c)) == picker::printable(s),
        !text::control(c) ==> picker::printable(s.push(c)) == picker::printable(s).push(c),
        picker::printable(Seq::empty()) == Seq::<char>::empty(),
{
    reveal(Seq::filter);
    assert(s.push(c).drop_last() =~= s);
}

/// A configured model shows the name it is asked for by, and what that stands
/// for where the name is another.
pub proof fn law_configured_models_show_their_name(c: Catalog, reference: Seq<char>, id: Seq<char>)
    requires
        !picker::referenced(c.choices, reference),
    ensures
        ({
            let r = c.configured(reference, id);
            &&& r.choices.len() == c.choices.len() + 1
            &&& r.choices.last().reference == reference
            &&& r.choices.last().configured
            &&& reference == id ==> r.choices.last().label == picker::printable(id)
            &&& reference != id ==> r.choices.last().label == picker::printable(
                reference + " | "@ + id,
            )
            &&& r.known.contains(id)
        }),
{
    if !c.known.contains(id) {
        assert(c.known.push(id)[c.known.len() as int] == id);
    }
}

} // verus!
