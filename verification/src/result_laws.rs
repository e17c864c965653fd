//! What holds of tool results on their way to the transcript: nothing that a
//! tool reported is lost, and a failure never looks like a success.
use crate::json;
use crate::json::Tree;
use crate::model::ActivityStatus;
use crate::text;
use vstd::prelude::*;

verus! {

/// `part` stands somewhere in `whole`.
pub open spec fn shown_in(part: Seq<char>, whole: Seq<char>) -> bool {
    exists|i: int|
        0 <= i && i + part.len() <= whole.len() && #[trigger] whole.subrange(
            i,
            i + part.len(),
        ) == part
}

/// `whole` ends in `part`.
pub open spec fn ends_in(whole: Seq<char>, part: Seq<char>) -> bool {
    part.len() <= whole.len() && whole.skip(whole.len() - part.len()) == part
}

proof fn lemma_shown(before: Seq<char>, part: Seq<char>, behind: Seq<char>)
    ensures
        shown_in(part, before + part + behind),
{
    let whole = before + part + behind;
    let i = before.len() as int;
    assert(whole.subrange(i, i + part.len()) =~= part);
}

// ---------------------------------------------------------------------------
// Entries of an object
// ---------------------------------------------------------------------------

proof fn lemma_key(m: Seq<(Seq<char>, Tree)>, key: Seq<char>)
    ensures
        0 <= json::key_at(m, key) <= m.len(),
        json::key_at(m, key) < m.len() ==> m[json::key_at(m, key)].0 == key,
        forall|j: int| 0 <= j < json::key_at(m, key) ==> (#[trigger] m[j]).0 != key,
    decreases m.len(),
{
    if m.len() > 0 {
        lemma_key(m.drop_last(), key);
        assert forall|j: int| 0 <= j < json::key_at(m, key) implies (#[trigger] m[j]).0
            != key by {
            if j < m.len() - 1 {
                assert(m.drop_last()[j] == m[j]);
            }
        }
    }
}

/// An entry of an object is found by its key, and only by that.
pub proof fn law_entries_are_found(m: Seq<(Seq<char>, Tree)>, key: Seq<char>)
    requires
        forall|i: int, j: int| 0 <= i < j < m.len() ==> (#[trigger] m[i]).0 != (#[trigger] m[j]).0,
    ensures
        forall|k: int|
            0 <= k < m.len() && (#[trigger] m[k]).0 == key ==> json::get(Tree::Object(m), key)
                == Some(m[k].1),
        (forall|k: int| 0 <= k < m.len() ==> (#[trigger] m[k]).0 != key) ==> json::get(
            Tree::Object(m),
            key,
        ) is None,
{
    lemma_key(m, key);
    let at = json::key_at(m, key);
    assert forall|k: int| 0 <= k < m.len() && (#[trigger] m[k]).0 == key implies json::get(
        Tree::Object(m),
        key,
    ) == Some(m[k].1) by {
        if at < k {
            assert(m[at].0 != m[k].0);
        }
    }
}

// ---------------------------------------------------------------------------
// The text of a result
// ---------------------------------------------------------------------------

/// What a process wrote to its error output is shown behind a mark of its own,
/// whatever it wrote to its output and however it ended.
pub proof fn law_error_output_is_shown(t: Tree, s: Seq<char>)
    requires
        json::get_text(t, "error"@) is None,
        json::get(t, "content"@) is None,
        json::get(t, "stderr"@) == Some(Tree::Text(s)),
        text::trim(s).len() > 0,
    ensures
        shown_in("[stderr]\n"@ + text::trim_end(s), json::value_text(t)),
{
    let mark = "[stderr]\n"@;
    let err = text::trim_end(s);
    let out = match json::get(t, "stdout"@) {
        Some(Tree::Text(s)) => json::readable(text::trim_end(s)),
        Some(v) => json::fenced(v),
        None => Seq::empty(),
    };
    let front = out + (if out.len() == 0 {
        Seq::empty()
    } else {
        seq!['\n']
    });
    let behind = match json::get(t, "exit_code"@) {
        Some(Tree::Number(_, Some(code))) if code != 0 => "\n[exit "@ + text::signed_decimal(
            code as int,
        ) + "]"@,
        _ => Seq::empty(),
    };
    let shown = front + mark + err;
    assert(json::value_text(t) == json::process_text(t));
    assert(json::process_text(t) == shown + behind) by {
        match json::get(t, "exit_code"@) {
            Some(Tree::Number(_, Some(code))) if code != 0 => {
                let digits = text::signed_decimal(code as int);
                assert(shown + "\n[exit "@ + digits + "]"@ =~= shown + behind);
            },
            _ => {
                assert(shown =~= shown + behind);
            },
        }
    }
    lemma_shown(front, mark + err, behind);
    assert(shown + behind =~= front + (mark + err) + behind);
}

/// What a process wrote to its output comes first, as it was written but for
/// white space at its end.
pub proof fn law_output_comes_first(t: Tree, s: Seq<char>)
    requires
        json::get_text(t, "error"@) is None,
        json::get(t, "content"@) is None,
        json::get(t, "stdout"@) == Some(Tree::Text(s)),
        !json::opens_value(text::trim_end(s)),
    ensures
        text::begins(json::value_text(t), text::trim_end(s)),
{
    let whole = json::value_text(t);
    let out = text::trim_end(s);
    assert(json::readable(out) == out);
    assert(whole.take(out.len() as int) =~= out);
}

/// A process that failed shows the number it ended with, at the very end. One
/// that succeeded in silence shows its output and nothing else.
pub proof fn law_exit_code_is_shown(t: Tree, digits: Seq<char>, code: i64)
    requires
        json::get_text(t, "error"@) is None,
        json::get(t, "content"@) is None,
        json::get(t, "exit_code"@) == Some(Tree::Number(digits, Some(code))),
    ensures
        code != 0 ==> ends_in(
            json::value_text(t),
            "\n[exit "@ + text::signed_decimal(code as int) + "]"@,
        ),
        code == 0 && json::get(t, "stderr"@) is None ==> match json::get(t, "stdout"@) {
            Some(Tree::Text(s)) => !json::opens_value(text::trim_end(s)) ==> json::value_text(t)
                == text::trim_end(s),
            Some(_) => true,
            None => json::value_text(t).len() == 0,
        },
{
    let whole = json::value_text(t);
    if code != 0 {
        let end = "\n[exit "@ + text::signed_decimal(code as int) + "]"@;
        assert(whole.skip(whole.len() - end.len()) =~= end);
    } else if json::get(t, "stderr"@) is None {
        assert(text::trim(Seq::<char>::empty()).len() == 0);
    }
}

/// Output, error output and the number follow each other in this order.
pub proof fn law_output_keeps_its_order(
    t: Tree,
    out: Seq<char>,
    err: Seq<char>,
    digits: Seq<char>,
    code: i64,
)
    requires
        json::get_text(t, "error"@) is None,
        json::get(t, "content"@) is None,
        json::get(t, "stdout"@) == Some(Tree::Text(out)),
        json::get(t, "stderr"@) == Some(Tree::Text(err)),
        json::get(t, "exit_code"@) == Some(Tree::Number(digits, Some(code))),
        code != 0,
        !json::opens_value(text::trim_end(out)),
        text::trim_end(out).len() > 0,
        text::trim(err).len() > 0,
    ensures
        json::value_text(t) == text::joined(
            seq![
                text::trim_end(out),
                "[stderr]"@,
                text::trim_end(err),
                "[exit "@ + text::signed_decimal(code as int) + "]"@,
            ],
            "\n"@,
        ),
{
    let a = text::trim_end(out);
    let b = text::trim_end(err);
    let last = "[exit "@ + text::signed_decimal(code as int) + "]"@;
    let parts = seq![a, "[stderr]"@, b, last];
    reveal_strlit("\n");
    reveal_strlit("[stderr]\n");
    reveal_strlit("[stderr]");
    reveal_strlit("\n[exit ");
    reveal_strlit("[exit ");
    reveal_with_fuel(text::joined, 5);
    assert(parts.drop_last() =~= seq![a, "[stderr]"@, b]);
    assert(parts.drop_last().drop_last() =~= seq![a, "[stderr]"@]);
    assert(parts.drop_last().drop_last().drop_last() =~= seq![a]);
    assert("[stderr]\n"@ =~= "[stderr]"@ + "\n"@);
    assert("\n[exit "@ =~= "\n"@ + "[exit "@);
    assert(json::readable(a) == a);
    assert(json::value_text(t) =~= a + "\n"@ + "[stderr]"@ + "\n"@ + b + "\n"@ + last);
}

/// A result with an error shows that error, marked as one, and the call that
/// failed on a line of its own behind it.
pub proof fn law_errors_are_shown(t: Tree, error: Seq<char>)
    requires
        json::get(t, "error"@) == Some(Tree::Text(error)),
        !json::opens_value(error),
    ensures
        text::begins(json::value_text(t), "[error] "@ + error),
        match json::get(t, "call"@) {
            Some(Tree::Text(call)) => json::value_text(t) == "[error] "@ + error + seq!['\n'] + call,
            _ => json::value_text(t) == "[error] "@ + error,
        },
{
    let whole = json::value_text(t);
    let front = "[error] "@ + error;
    assert(json::readable(error) == error);
    assert(whole.take(front.len() as int) =~= front);
    match json::get(t, "call"@) {
        Some(Tree::Text(call)) => {
            assert(whole =~= front + seq!['\n'] + call);
        },
        _ => {
            assert(whole =~= front);
        },
    }
}

/// The payload of a result without an error is all that is shown of it.
pub proof fn law_payload_is_shown(t: Tree, s: Seq<char>)
    requires
        json::get_text(t, "error"@) is None,
        json::get(t, "content"@) == Some(Tree::Text(s)),
        !json::opens_value(s),
    ensures
        json::value_text(t) == s,
{
}

/// A value that is no payload, no error and no output of a process is printed
/// whole, between fences.
pub proof fn law_other_values_are_printed(t: Tree)
    requires
        !(t is Text),
        json::get(t, "error"@) is None,
        json::get(t, "content"@) is None,
        json::get(t, "exit_code"@) is None,
        json::get(t, "stdout"@) is None,
        json::get(t, "stderr"@) is None,
    ensures
        json::value_text(t) == "```json\n"@ + json::pretty_json(t) + "\n```"@,
{
}

/// Text that is no JSON is shown as it is.
pub proof fn law_plain_results_stay(s: Seq<char>)
    requires
        json::parsed_json(s) is None,
        json::parsed_json(text::trim(s)) is None,
    ensures
        json::result_text(s) == s,
{
}

/// Whether no string inside of a value holds an object or an array.
pub open spec fn unencoded(t: Tree) -> bool
    decreases t,
{
    match t {
        Tree::Text(s) => !json::opens_value(s),
        Tree::Array(items) => unencoded_all(items),
        Tree::Object(m) => unencoded_members(m),
        _ => true,
    }
}

/// Whether no string inside of several values holds an object or an array.
pub open spec fn unencoded_all(items: Seq<Tree>) -> bool
    decreases items,
{
    items.len() == 0 || unencoded_all(items.drop_last()) && unencoded(items.last())
}

/// Whether no string inside of several entries holds an object or an array.
pub open spec fn unencoded_members(m: Seq<(Seq<char>, Tree)>) -> bool
    decreases m,
{
    m.len() == 0 || unencoded_members(m.drop_last()) && unencoded(m.last().1)
}

proof fn lemma_unencoded(t: Tree, layers: nat)
    requires
        unencoded(t),
    ensures
        json::normalized(t, layers) == t,
    decreases t,
{
    match t {
        Tree::Array(items) => lemma_unencoded_all(items, layers),
        Tree::Object(m) => lemma_unencoded_members(m, layers),
        _ => {},
    }
}

proof fn lemma_unencoded_all(items: Seq<Tree>, layers: nat)
    requires
        unencoded_all(items),
    ensures
        json::normalized_all(items, layers) == items,
    decreases items,
{
    if items.len() > 0 {
        lemma_unencoded_all(items.drop_last(), layers);
        lemma_unencoded(items.last(), layers);
        assert(items.drop_last().push(items.last()) =~= items);
    } else {
        assert(items =~= Seq::empty());
    }
}

proof fn lemma_unencoded_members(m: Seq<(Seq<char>, Tree)>, layers: nat)
    requires
        unencoded_members(m),
    ensures
        json::normalized_members(m, layers) == m,
    decreases m,
{
    if m.len() > 0 {
        lemma_unencoded_members(m.drop_last(), layers);
        lemma_unencoded(m.last().1, layers);
        assert((m.last().0, m.last().1) == m.last());
        assert(m.drop_last().push(m.last()) =~= m);
    } else {
        assert(m =~= Seq::empty());
    }
}

/// A result that is a string which holds JSON is shown as that JSON would be
/// shown by itself.
pub proof fn law_encoded_json_is_seen_through(s: Seq<char>, inner: Seq<char>, t: Tree)
    requires
        json::parsed_json(s) == Some(Tree::Text(inner)),
        json::opens_value(inner),
        json::parsed_json(text::trim(inner)) == Some(t),
        unencoded(t),
    ensures
        json::result_text(s) == json::result_text(text::trim(inner)),
        json::readable(inner) == "```json\n"@ + json::pretty_json(t) + "\n```"@,
{
    lemma_unencoded(t, 2);
    lemma_unencoded(t, 3);
    assert(json::normalized(Tree::Text(inner), 3) == json::normalized(t, 2));
}

/// Seeing through the strings of an object keeps its entries, their names and
/// their order, and a string that holds no JSON.
pub proof fn law_entries_are_seen_through(m: Seq<(Seq<char>, Tree)>, layers: nat, i: int)
    requires
        0 <= i < m.len(),
    ensures
        json::normalized(Tree::Object(m), layers) is Object,
        ({
            let seen = json::normalized(Tree::Object(m), layers)->Object_0;
            &&& seen.len() == m.len()
            &&& seen[i].0 == m[i].0
            &&& unencoded(m[i].1) ==> seen[i].1 == m[i].1
            &&& m[i].1 is Text && layers > 0 && json::opens_value(m[i].1->Text_0)
                && json::parsed_json(text::trim(m[i].1->Text_0)) is Some && unencoded(
                json::parsed_json(text::trim(m[i].1->Text_0))->0,
            ) ==> Some(seen[i].1) == json::parsed_json(text::trim(m[i].1->Text_0))
        }),
    decreases m.len(),
{
    lemma_seen_members(m, layers);
    let front = m.drop_last();
    if i == m.len() - 1 {
        let v = m.last().1;
        if unencoded(v) {
            lemma_unencoded(v, layers);
        }
        if v is Text && layers > 0 && json::parsed_json(text::trim(v->Text_0)) is Some {
            let p = json::parsed_json(text::trim(v->Text_0))->0;
            if unencoded(p) {
                lemma_unencoded(p, (layers - 1) as nat);
            }
        }
    } else {
        lemma_seen_members(front, layers);
        law_entries_are_seen_through(front, layers, i);
        assert(front[i] == m[i]);
    }
}

proof fn lemma_seen_members(m: Seq<(Seq<char>, Tree)>, layers: nat)
    ensures
        json::normalized_members(m, layers).len() == m.len(),
    decreases m.len(),
{
    if m.len() > 0 {
        lemma_seen_members(m.drop_last(), layers);
    }
}

// ---------------------------------------------------------------------------
// The status of a result
// ---------------------------------------------------------------------------

/// What a result calls its status counts, whatever else it holds.
pub proof fn law_named_status_counts(m: Seq<(Seq<char>, Tree)>, word: Seq<char>)
    requires
        json::get(Tree::Object(m), "status"@) == Some(Tree::Text(word)),
        json::status_word(word) is Some,
    ensures
        json::settled(Tree::Object(m)) == json::status_word(word)->0,
{
    lemma_key(m, "status"@);
}

/// The words for a status are told apart, and only words for a success stand
/// for one.
pub proof fn law_status_words(s: Seq<char>)
    ensures
        ({
            let w = text::ascii_lower(text::trim(s));
            &&& json::status_word(s) == Some(ActivityStatus::Success) <==> w == "success"@ || w
                == "ok"@ || w == "succeeded"@
            &&& json::status_word(s) == Some(ActivityStatus::Error) <==> w == "error"@ || w
                == "failed"@ || w == "failure"@
            &&& json::status_word(s) == Some(ActivityStatus::Cancelled) <==> w == "cancelled"@ || w
                == "canceled"@ || w == "aborted"@
            &&& json::status_word(s) == Some(ActivityStatus::Denied) <==> w == "denied"@ || w
                == "rejected"@
        }),
{
    reveal_strlit("success");
    reveal_strlit("ok");
    reveal_strlit("succeeded");
    reveal_strlit("error");
    reveal_strlit("failed");
    reveal_strlit("failure");
    reveal_strlit("cancelled");
    reveal_strlit("canceled");
    reveal_strlit("aborted");
    reveal_strlit("denied");
    reveal_strlit("rejected");
    assert("succeeded"@[0] != "cancelled"@[0]);
    assert("canceled"@[0] != "rejected"@[0]);
    assert("success"@[0] != "failure"@[0] && "success"@[0] != "aborted"@[0]);
    assert("failure"@[0] != "aborted"@[0]);
    assert("failed"@[0] != "denied"@[0]);
    let w = text::ascii_lower(text::trim(s));
    let r = json::status_word(s);
    if w == "success"@ {
        assert(r == Some(ActivityStatus::Success));
    }
    assert("ok"@.len() == 2);
    if w == "ok"@ {
        assert(w.len() == 2);
        assert(r == Some(ActivityStatus::Success));
    }
    if w == "succeeded"@ {
        assert(r == Some(ActivityStatus::Success));
    }
    if w == "failed"@ {
        assert(r == Some(ActivityStatus::Error));
    }
    if w == "failure"@ {
        assert(r == Some(ActivityStatus::Error));
    }
    if w == "canceled"@ {
        assert(r == Some(ActivityStatus::Cancelled));
    }
}

/// A result that names no status has failed if it holds an error that is not
/// null, and has not if nothing in it does.
pub proof fn law_errors_are_failures(m: Seq<(Seq<char>, Tree)>)
    requires
        json::explicit_status(Tree::Object(m)) is None,
    ensures
        json::get(Tree::Object(m), "error"@) is Some && !(json::get(
            Tree::Object(m),
            "error"@,
        )->0 is Null) ==> json::settled(Tree::Object(m)) == ActivityStatus::Error,
        (json::get(Tree::Object(m), "error"@) is None || json::get(
            Tree::Object(m),
            "error"@,
        )->0 is Null) && json::get(Tree::Object(m), "content"@) is None && json::get(
            Tree::Object(m),
            "stdout"@,
        ) is None ==> json::settled(Tree::Object(m)) == ActivityStatus::Success,
{
    lemma_key(m, "error"@);
    lemma_key(m, "content"@);
    lemma_key(m, "stdout"@);
}

/// A list has failed if one of its items has, and none of them names a status.
pub proof fn law_failures_in_lists_count(items: Seq<Tree>, k: int)
    requires
        json::explicit_status(Tree::Array(items)) is None,
        0 <= k < items.len(),
        json::reports_error(items[k]),
    ensures
        json::settled(Tree::Array(items)) == ActivityStatus::Error,
{
    lemma_some_error(items, k);
}

proof fn lemma_some_error(items: Seq<Tree>, k: int)
    requires
        0 <= k < items.len(),
        json::reports_error(items[k]),
    ensures
        json::some_error(items),
    decreases items.len(),
{
    if k < items.len() - 1 {
        lemma_some_error(items.drop_last(), k);
    }
}

/// Text that is no JSON is a success: only a report of an error makes a
/// failure.
pub proof fn law_plain_results_succeed(s: Seq<char>)
    requires
        json::parsed_json(s) is None,
    ensures
        json::result_status(s) == ActivityStatus::Success,
{
}

/// A result that is JSON inside of a string has the status of that JSON.
pub proof fn law_encoded_results_are_read(s: Seq<char>, inner: Seq<char>, t: Tree)
    requires
        json::parsed_json(s) == Some(Tree::Text(inner)),
        json::parsed_json(inner) == Some(t),
        !(t is Text),
    ensures
        json::result_status(s) == json::settled(t),
        json::result_status(s) == json::result_status(inner),
{
    reveal_with_fuel(json::unwrapped, 4);
}

/// A status is looked for in the error first, then in the payload, then in the
/// output; what comes first counts.
pub proof fn law_inner_statuses_count_in_order(m: Seq<(Seq<char>, Tree)>)
    requires
        json::get(Tree::Object(m), "status"@) is None,
    ensures
        ({
            let t = Tree::Object(m);
            let of = |key: Seq<char>|
                match json::get(t, key) {
                    Some(v) => json::explicit_status(v),
                    None => None,
                };
            &&& of("error"@) is Some ==> json::explicit_status(t) == of("error"@)
            &&& of("error"@) is None && of("content"@) is Some ==> json::explicit_status(t) == of(
                "content"@,
            )
            &&& of("error"@) is None && of("content"@) is None ==> json::explicit_status(t) == of(
                "stdout"@,
            )
        }),
{
    lemma_key(m, "status"@);
    lemma_key(m, "error"@);
    lemma_key(m, "content"@);
    lemma_key(m, "stdout"@);
}

/// A failure inside of the payload or of the output is a failure.
pub proof fn law_inner_failures_count(m: Seq<(Seq<char>, Tree)>, key: Seq<char>, v: Tree)
    requires
        json::explicit_status(Tree::Object(m)) is None,
        key == "content"@ || key == "stdout"@,
        json::get(Tree::Object(m), key) == Some(v),
        json::reports_error(v),
    ensures
        json::settled(Tree::Object(m)) == ActivityStatus::Error,
{
    lemma_key(m, "error"@);
    lemma_key(m, "content"@);
    lemma_key(m, "stdout"@);
}

/// A result that was encoded as a string again and again is read through up to
/// three such layers.
pub proof fn law_deep_results_are_read(
    s: Seq<char>,
    first: Seq<char>,
    second: Seq<char>,
    third: Seq<char>,
    t: Tree,
)
    requires
        json::parsed_json(s) == Some(Tree::Text(first)),
        json::parsed_json(first) == Some(Tree::Text(second)),
        json::parsed_json(second) == Some(Tree::Text(third)),
        json::parsed_json(third) == Some(t),
    ensures
        json::result_status(s) == json::settled(t),
{
    reveal_with_fuel(json::unwrapped, 5);
}

/// Seeing through the strings of a list keeps its items and their order.
pub proof fn law_items_are_seen_through(items: Seq<Tree>, layers: nat, i: int)
    requires
        0 <= i < items.len(),
    ensures
        json::normalized(Tree::Array(items), layers) is Array,
        ({
            let seen = json::normalized(Tree::Array(items), layers)->Array_0;
            &&& seen.len() == items.len()
            &&& unencoded(items[i]) ==> seen[i] == items[i]
            &&& items[i] is Text && layers > 0 && json::opens_value(items[i]->Text_0)
                && json::parsed_json(text::trim(items[i]->Text_0)) is Some && unencoded(
                json::parsed_json(text::trim(items[i]->Text_0))->0,
            ) ==> Some(seen[i]) == json::parsed_json(text::trim(items[i]->Text_0))
        }),
    decreases items.len(),
{
    lemma_seen_items(items, layers);
    let front = items.drop_last();
    if i == items.len() - 1 {
        let v = items.last();
        if unencoded(v) {
            lemma_unencoded(v, layers);
        }
        if v is Text && layers > 0 && json::parsed_json(text::trim(v->Text_0)) is Some {
            let p = json::parsed_json(text::trim(v->Text_0))->0;
            if unencoded(p) {
                lemma_unencoded(p, (layers - 1) as nat);
            }
        }
    } else {
        lemma_seen_items(front, layers);
        law_items_are_seen_through(front, layers, i);
        assert(front[i] == items[i]);
    }
}

proof fn lemma_seen_items(items: Seq<Tree>, layers: nat)
    ensures
        json::normalized_all(items, layers).len() == items.len(),
    decreases items.len(),
{
    if items.len() > 0 {
        lemma_seen_items(items.drop_last(), layers);
    }
}

} // verus!
