//! JSON payloads of tools: what a result says of its call, and the text that
//! the transcript shows for it. Parsing and printing are serde_json's.
use crate::model::ActivityStatus;
use crate::text;
use crate::text::{ascii_lower_text, chars_of, same, signed_text, trim_end_text, trim_text};
use vstd::prelude::*;
use vstd::string::*;

verus! {

/// A JSON value as plain data. A number is kept as it is printed, with its
/// value where that is a 64-bit integer.
#[derive(Debug)]
pub enum Json {
    Null,
    Bool(bool),
    Number(String, Option<i64>),
    Text(String),
    Array(Vec<Json>),
    Object(Vec<Member>),
}

/// One entry of a JSON object.
#[derive(Debug)]
pub struct Member {
    pub key: String,
    pub value: Json,
}

/// Mathematical value of a JSON value.
pub enum Tree {
    Null,
    Bool(bool),
    Number(Seq<char>, Option<i64>),
    Text(Seq<char>),
    Array(Seq<Tree>),
    Object(Seq<(Seq<char>, Tree)>),
}

impl View for Json {
    type V = Tree;

    open spec fn view(&self) -> Tree {
        tree(*self)
    }
}

/// Mathematical value of a JSON value.
pub open spec fn tree(j: Json) -> Tree
    decreases j,
{
    match j {
        Json::Null => Tree::Null,
        Json::Bool(b) => Tree::Bool(b),
        Json::Number(s, n) => Tree::Number(s@, n),
        Json::Text(s) => Tree::Text(s@),
        Json::Array(items) => Tree::Array(trees(items@)),
        Json::Object(members) => Tree::Object(branches(members@)),
    }
}

/// Mathematical values of a sequence of JSON values.
pub open spec fn trees(s: Seq<Json>) -> Seq<Tree>
    decreases s,
{
    if s.len() == 0 {
        Seq::empty()
    } else {
        trees(s.drop_last()).push(tree(s.last()))
    }
}

/// Mathematical values of the entries of an object.
pub open spec fn branches(s: Seq<Member>) -> Seq<(Seq<char>, Tree)>
    decreases s,
{
    if s.len() == 0 {
        Seq::empty()
    } else {
        branches(s.drop_last()).push((s.last().key@, tree(s.last().value)))
    }
}

proof fn lemma_trees(s: Seq<Json>)
    ensures
        trees(s).len() == s.len(),
        forall|i: int| 0 <= i < s.len() ==> #[trigger] trees(s)[i] == tree(s[i]),
    decreases s.len(),
{
    if s.len() > 0 {
        lemma_trees(s.drop_last());
    }
}

proof fn lemma_branches(s: Seq<Member>)
    ensures
        branches(s).len() == s.len(),
        forall|i: int|
            0 <= i < s.len() ==> #[trigger] branches(s)[i] == (s[i].key@, tree(s[i].value)),
    decreases s.len(),
{
    if s.len() > 0 {
        lemma_branches(s.drop_last());
    }
}

/// What `serde_json::from_str` makes of a text: the value that it holds, or
/// what is wrong with it.
pub uninterp spec fn json_outcome(s: Seq<char>) -> Result<Tree, Seq<char>>;

/// The value that a text holds; `None` where it is no JSON.
pub open spec fn parsed_json(s: Seq<char>) -> Option<Tree> {
    match json_outcome(s) {
        Ok(t) => Some(t),
        Err(_) => None,
    }
}

/// What is wrong with a text that is no JSON.
pub open spec fn json_fault(s: Seq<char>) -> Seq<char> {
    json_outcome(s)->Err_0
}

/// What `serde_json::to_string_pretty` prints for a value.
pub uninterp spec fn pretty_json(t: Tree) -> Seq<char>;

/// A serde_json value as plain data, one arm for each of its variants.
#[verifier::external_body]
fn json_of(value: serde_json::Value) -> Json {
    match value {
        serde_json::Value::Null => Json::Null,
        serde_json::Value::Bool(b) => Json::Bool(b),
        serde_json::Value::Number(n) => Json::Number(n.to_string(), n.as_i64()),
        serde_json::Value::String(s) => Json::Text(s),
        serde_json::Value::Array(items) => Json::Array(items.into_iter().map(json_of).collect()),
        serde_json::Value::Object(map) => Json::Object(
            map.into_iter().map(|(key, v)| Member { key, value: json_of(v) }).collect(),
        ),
    }
}

/// The number that `serde_json::Number` prints as `s`. An integer prints as
/// its digits. Any other number prints as the shortest decimal that rounds to
/// it, which std reads back without loss. `None` where `s` is no such text.
#[verifier::external_body]
fn number_of(s: &str) -> Option<serde_json::Number> {
    s.parse::<u64>().ok().map(serde_json::Number::from)
        .or_else(|| s.parse::<i64>().ok().map(serde_json::Number::from))
        .or_else(|| s.parse().ok().and_then(serde_json::Number::from_f64))
}

/// Plain data as a serde_json value, one arm for each variant.
#[verifier::external_body]
fn value_of(json: &Json) -> serde_json::Value {
    match json {
        Json::Null => serde_json::Value::Null,
        Json::Bool(b) => serde_json::Value::Bool(*b),
        Json::Number(s, _) => number_of(s).map(serde_json::Value::Number).unwrap_or_default(),
        Json::Text(s) => serde_json::Value::String(s.clone()),
        Json::Array(items) => serde_json::Value::Array(items.iter().map(value_of).collect()),
        Json::Object(members) => serde_json::Value::Object(
            members.iter().map(|m| (m.key.clone(), value_of(&m.value))).collect(),
        ),
    }
}

/// A number of serde_json, carried to its printer.
#[verifier::external_type_specification]
#[verifier::external_body]
pub struct ExNumber(serde_json::Number);

/// A value of serde_json, carried from its parser to its plain form.
#[verifier::external_type_specification]
#[verifier::external_body]
pub struct ExValue(serde_json::Value);

/// `serde_json::from_str`: the value that a text holds, or the parser's message
/// where the text is no JSON. Nothing is said of either but that the text
/// determines it.
#[verifier::external_body]
pub(crate) fn read_json(s: &str) -> (r: Result<Json, String>)
    ensures
        match r {
            Ok(j) => json_outcome(s@) == Ok::<Tree, Seq<char>>(j@),
            Err(e) => json_outcome(s@) == Err::<Tree, Seq<char>>(e@),
        },
{
    serde_json::from_str::<serde_json::Value>(s).map(json_of).map_err(|e| e.to_string())
}

/// The value that a text holds.
fn parse_json(s: &str) -> (r: Option<Json>)
    ensures
        match r {
            Some(j) => parsed_json(s@) == Some(j@),
            None => parsed_json(s@) is None,
        },
{
    match read_json(s) {
        Ok(value) => Some(value),
        Err(_) => None,
    }
}

/// The arguments of a tool call: the value that their text holds, or the text
/// itself where it is no JSON.
pub fn arguments_of(s: &str) -> (r: Json)
    ensures
        r@ == match parsed_json(s@) {
            Some(t) => t,
            None => Tree::Text(s@),
        },
{
    match parse_json(s) {
        Some(value) => value,
        None => Json::Text(s.to_owned()),
    }
}

/// `serde_json::to_string_pretty`: the value printed over several lines, empty
/// where printing fails. Nothing is said of the text but that the value
/// determines it.
#[verifier::external_body]
fn pretty_text(json: &Json) -> (r: String)
    ensures
        r@ == pretty_json(json@),
{
    serde_json::to_string_pretty(&value_of(json)).unwrap_or_default()
}

// ---------------------------------------------------------------------------
// What a result says of its call
// ---------------------------------------------------------------------------

/// The status that a word stands for, in any case and with space around it.
pub open spec fn status_word(s: Seq<char>) -> Option<ActivityStatus> {
    let w = text::ascii_lower(text::trim(s));
    if w == "denied"@ || w == "rejected"@ {
        Some(ActivityStatus::Denied)
    } else if w == "cancelled"@ || w == "canceled"@ || w == "aborted"@ {
        Some(ActivityStatus::Cancelled)
    } else if w == "error"@ || w == "failed"@ || w == "failure"@ {
        Some(ActivityStatus::Error)
    } else if w == "success"@ || w == "ok"@ || w == "succeeded"@ {
        Some(ActivityStatus::Success)
    } else {
        None
    }
}

/// The status that a word stands for.
pub fn status_from_str(raw: &str) -> (r: Option<ActivityStatus>)
    ensures
        r == status_word(raw@),
{
    let w = ascii_lower_text(trim_text(raw).as_str());
    let w = w.as_str();
    if same(w, "denied") || same(w, "rejected") {
        Some(ActivityStatus::Denied)
    } else if same(w, "cancelled") || same(w, "canceled") || same(w, "aborted") {
        Some(ActivityStatus::Cancelled)
    } else if same(w, "error") || same(w, "failed") || same(w, "failure") {
        Some(ActivityStatus::Error)
    } else if same(w, "success") || same(w, "ok") || same(w, "succeeded") {
        Some(ActivityStatus::Success)
    } else {
        None
    }
}

/// Position of the first entry with a key, or the number of entries.
pub open spec fn key_at(m: Seq<(Seq<char>, Tree)>, key: Seq<char>) -> int
    decreases m.len(),
{
    if m.len() == 0 {
        0
    } else {
        let k = key_at(m.drop_last(), key);
        if k < m.len() - 1 || m.last().0 == key {
            k
        } else {
            m.len() as int
        }
    }
}

proof fn lemma_key_at(m: Seq<(Seq<char>, Tree)>, key: Seq<char>)
    ensures
        0 <= key_at(m, key) <= m.len(),
        key_at(m, key) < m.len() ==> m[key_at(m, key)].0 == key,
        forall|j: int| 0 <= j < key_at(m, key) ==> (#[trigger] m[j]).0 != key,
    decreases m.len(),
{
    if m.len() > 0 {
        lemma_key_at(m.drop_last(), key);
        assert forall|j: int| 0 <= j < key_at(m, key) implies (#[trigger] m[j]).0 != key by {
            if j < m.len() - 1 {
                assert(m.drop_last()[j] == m[j]);
            }
        }
    }
}

/// The entry with a key, where the value is an object that has one.
pub open spec fn get(t: Tree, key: Seq<char>) -> Option<Tree> {
    match t {
        Tree::Object(m) => if key_at(m, key) < m.len() {
            Some(m[key_at(m, key)].1)
        } else {
            None
        },
        _ => None,
    }
}

/// Position of the first entry with a key, or the number of entries.
fn find_key(members: &Vec<Member>, key: &str) -> (r: usize)
    ensures
        r == key_at(branches(members@), key@),
        r <= members@.len(),
        r < members@.len() ==> branches(members@)[r as int] == (
            key@,
            tree(members@[r as int].value),
        ),
        branches(members@).len() == members@.len(),
{
    let ghost m = branches(members@);
    proof {
        lemma_branches(members@);
        lemma_key_at(m, key@);
    }
    let mut i: usize = 0;
    while i < members.len()
        invariant
            m == branches(members@),
            m.len() == members@.len(),
            i <= key_at(m, key@) <= members@.len(),
            key_at(m, key@) < m.len() ==> m[key_at(m, key@)].0 == key@,
            forall|j: int| 0 <= j < key_at(m, key@) ==> (#[trigger] m[j]).0 != key@,
            forall|j: int|
                0 <= j < m.len() ==> #[trigger] m[j] == (
                    members@[j].key@,
                    tree(members@[j].value),
                ),
        decreases members@.len() - i,
    {
        assert(m[i as int].0 == members@[i as int].key@);
        if same(members[i].key.as_str(), key) {
            return i;
        }
        i += 1;
    }
    i
}

/// The entry of `json` with a key.
fn member<'a>(json: &'a Json, key: &str) -> (r: Option<&'a Json>)
    ensures
        match r {
            Some(j) => get(json@, key@) == Some(j@),
            None => get(json@, key@) is None,
        },
{
    match json {
        Json::Object(members) => {
            let k: usize = find_key(members, key);
            if k < members.len() {
                Some(&members[k].value)
            } else {
                None
            }
        },
        _ => None,
    }
}

/// An explicit status in a value: in its `status` entry, or else in the first
/// of its `error`, `content` and `stdout` entries that has one, or in the first
/// such item of an array.
pub open spec fn explicit_status(t: Tree) -> Option<ActivityStatus>
    decreases t,
{
    match t {
        Tree::Object(m) => {
            let k = key_at(m, "status"@);
            let e = key_at(m, "error"@);
            let c = key_at(m, "content"@);
            let o = key_at(m, "stdout"@);
            let own = if 0 <= k < m.len() {
                match m[k].1 {
                    Tree::Text(s) => status_word(s),
                    _ => None,
                }
            } else {
                None
            };
            let error = if 0 <= e < m.len() {
                explicit_status(m[e].1)
            } else {
                None
            };
            let content = if 0 <= c < m.len() {
                explicit_status(m[c].1)
            } else {
                None
            };
            if own is Some {
                own
            } else if error is Some {
                error
            } else if content is Some {
                content
            } else if 0 <= o < m.len() {
                explicit_status(m[o].1)
            } else {
                None
            }
        },
        Tree::Array(items) => first_status(items),
        _ => None,
    }
}

/// The first explicit status among several values.
pub open spec fn first_status(items: Seq<Tree>) -> Option<ActivityStatus>
    decreases items,
{
    if items.len() == 0 {
        None
    } else {
        let p = first_status(items.drop_last());
        if p is Some {
            p
        } else {
            explicit_status(items.last())
        }
    }
}

/// The explicit status that a value holds.
pub fn classify_value_status(value: &Json) -> (r: Option<ActivityStatus>)
    ensures
        r == explicit_status(value@),
    decreases value,
{
    match value {
        Json::Object(members) => {
            let k: usize = find_key(members, "status");
            if k < members.len() {
                if let Json::Text(s) = &members[k].value {
                    let own = status_from_str(s.as_str());
                    if own.is_some() {
                        return own;
                    }
                }
            }
            let e: usize = find_key(members, "error");
            if e < members.len() {
                let error = classify_value_status(&members[e].value);
                if error.is_some() {
                    return error;
                }
            }
            let c: usize = find_key(members, "content");
            if c < members.len() {
                let content = classify_value_status(&members[c].value);
                if content.is_some() {
                    return content;
                }
            }
            let o: usize = find_key(members, "stdout");
            if o < members.len() {
                return classify_value_status(&members[o].value);
            }
            None
        },
        Json::Array(items) => {
            let ghost all = trees(items@);
            let mut i: usize = 0;
            proof {
                lemma_trees(items@);
                assert(all.take(0) =~= Seq::<Tree>::empty());
            }
            while i < items.len()
                invariant
                    value == Json::Array(*items),
                    all == trees(items@),
                    all.len() == items@.len(),
                    forall|j: int| 0 <= j < all.len() ==> #[trigger] all[j] == tree(items@[j]),
                    i <= items@.len(),
                    first_status(all.take(i as int)) is None,
                decreases items@.len() - i,
            {
                assert(all.take(i + 1).drop_last() =~= all.take(i as int));
                let found = classify_value_status(&items[i]);
                if found.is_some() {
                    proof {
                        lemma_first_status_stays(all, i + 1);
                    }
                    return found;
                }
                i += 1;
            }
            assert(all.take(i as int) =~= all);
            None
        },
        _ => None,
    }
}

proof fn lemma_first_status_stays(items: Seq<Tree>, k: int)
    requires
        0 <= k <= items.len(),
        first_status(items.take(k)) is Some,
    ensures
        first_status(items) == first_status(items.take(k)),
    decreases items.len(),
{
    if k == items.len() {
        assert(items.take(k) =~= items);
    } else {
        assert(items.drop_last().take(k) =~= items.take(k));
        lemma_first_status_stays(items.drop_last(), k);
    }
}

/// A value reports an error: its `error` entry is there and not null, or its
/// `content` or `stdout` entry or some item of an array reports one.
pub open spec fn reports_error(t: Tree) -> bool
    decreases t,
{
    match t {
        Tree::Object(m) => {
            let e = key_at(m, "error"@);
            let c = key_at(m, "content"@);
            let o = key_at(m, "stdout"@);
            ||| 0 <= e < m.len() && !(m[e].1 is Null)
            ||| 0 <= c < m.len() && reports_error(m[c].1)
            ||| 0 <= o < m.len() && reports_error(m[o].1)
        },
        Tree::Array(items) => some_error(items),
        _ => false,
    }
}

/// Some of several values reports an error.
pub open spec fn some_error(items: Seq<Tree>) -> bool
    decreases items,
{
    items.len() > 0 && (some_error(items.drop_last()) || reports_error(items.last()))
}

/// Whether a value reports an error.
pub fn classify_value_is_error(value: &Json) -> (r: bool)
    ensures
        r == reports_error(value@),
    decreases value,
{
    match value {
        Json::Object(members) => {
            let e: usize = find_key(members, "error");
            if e < members.len() {
                match &members[e].value {
                    Json::Null => {},
                    _ => {
                        return true;
                    },
                }
            }
            let c: usize = find_key(members, "content");
            if c < members.len() && classify_value_is_error(&members[c].value) {
                return true;
            }
            let o: usize = find_key(members, "stdout");
            o < members.len() && classify_value_is_error(&members[o].value)
        },
        Json::Array(items) => {
            let ghost all = trees(items@);
            let mut i: usize = 0;
            let mut found: bool = false;
            proof {
                lemma_trees(items@);
                assert(all.take(0) =~= Seq::<Tree>::empty());
            }
            while i < items.len()
                invariant
                    value == Json::Array(*items),
                    all == trees(items@),
                    all.len() == items@.len(),
                    forall|j: int| 0 <= j < all.len() ==> #[trigger] all[j] == tree(items@[j]),
                    i <= items@.len(),
                    found == some_error(all.take(i as int)),
                decreases items@.len() - i,
            {
                assert(all.take(i + 1).drop_last() =~= all.take(i as int));
                assert(decreases_to!(value->Array_0 => value->Array_0@));
                assert(decreases_to!(items@ => items@[i as int]));
                if !found {
                    found = classify_value_is_error(&items[i]);
                }
                i += 1;
            }
            assert(all.take(i as int) =~= all);
            found
        },
        _ => false,
    }
}

/// How often a string that holds JSON is unwrapped.
pub const JSON_LAYERS: usize = 3;

/// A value with up to `layers` layers of string encoding taken off.
pub open spec fn unwrapped(t: Tree, layers: nat) -> Tree
    decreases layers,
{
    match t {
        Tree::Text(s) => match parsed_json(s) {
            Some(p) if layers > 0 => unwrapped(p, (layers - 1) as nat),
            _ => t,
        },
        _ => t,
    }
}

/// The status of a parsed result: the explicit one, or else whether it reports
/// an error.
pub open spec fn settled(t: Tree) -> ActivityStatus {
    match explicit_status(t) {
        Some(status) => status,
        None => if reports_error(t) {
            ActivityStatus::Error
        } else {
            ActivityStatus::Success
        },
    }
}

/// The status that a tool result's text stands for.
pub open spec fn result_status(content: Seq<char>) -> ActivityStatus {
    match parsed_json(content) {
        Some(t) => settled(unwrapped(t, JSON_LAYERS as nat)),
        None => ActivityStatus::Success,
    }
}

/// The status of a value once its string layers are taken off.
pub fn settle(value: &Json) -> (r: ActivityStatus)
    ensures
        r == settled(value@),
{
    match classify_value_status(value) {
        Some(status) => status,
        None => if classify_value_is_error(value) {
            ActivityStatus::Error
        } else {
            ActivityStatus::Success
        },
    }
}

/// The status that a tool result's text stands for. Text that is no JSON is a
/// success.
pub fn classify_tool_result_status(content: &str) -> (r: ActivityStatus)
    ensures
        r == result_status(content@),
{
    let mut value = match parse_json(content) {
        Some(value) => value,
        None => {
            return ActivityStatus::Success;
        },
    };
    let ghost first = value@;
    let mut layers: usize = JSON_LAYERS;
    let mut open: bool = true;
    while layers > 0 && open
        invariant
            open ==> unwrapped(first, JSON_LAYERS as nat) == unwrapped(value@, layers as nat),
            !open ==> unwrapped(first, JSON_LAYERS as nat) == value@,
        decreases layers + if open {
            1int
        } else {
            0
        },
    {
        let inner = match &value {
            Json::Text(s) => parse_json(s.as_str()),
            _ => None,
        };
        match inner {
            Some(next) => {
                value = next;
                layers -= 1;
            },
            None => {
                open = false;
            },
        }
    }
    assert(unwrapped(value@, 0) == value@);
    settle(&value)
}

// ---------------------------------------------------------------------------
// What the transcript shows of a result
// ---------------------------------------------------------------------------

/// A text that opens an object or an array once its leading space is gone.
pub open spec fn opens_value(s: Seq<char>) -> bool {
    let w = text::trim(s);
    w.len() > 0 && (w[0] == '{' || w[0] == '[')
}

/// A value whose strings that hold an object or an array are replaced by what
/// they hold, down to `layers` layers.
pub open spec fn normalized(t: Tree, layers: nat) -> Tree
    decreases layers, t,
{
    match t {
        Tree::Text(s) => match parsed_json(text::trim(s)) {
            Some(p) if layers > 0 && opens_value(s) => normalized(p, (layers - 1) as nat),
            _ => t,
        },
        Tree::Array(items) => Tree::Array(normalized_all(items, layers)),
        Tree::Object(m) => Tree::Object(normalized_members(m, layers)),
        _ => t,
    }
}

/// Several values with their strings replaced.
pub open spec fn normalized_all(items: Seq<Tree>, layers: nat) -> Seq<Tree>
    decreases layers, items,
{
    if items.len() == 0 {
        Seq::empty()
    } else {
        normalized_all(items.drop_last(), layers).push(normalized(items.last(), layers))
    }
}

/// The entries of an object with their strings replaced.
pub open spec fn normalized_members(m: Seq<(Seq<char>, Tree)>, layers: nat) -> Seq<
    (Seq<char>, Tree),
>
    decreases layers, m,
{
    if m.len() == 0 {
        Seq::empty()
    } else {
        normalized_members(m.drop_last(), layers).push(
            (m.last().0, normalized(m.last().1, layers)),
        )
    }
}

/// Whether a text opens an object or an array.
fn opens_json(s: &str) -> (r: bool)
    ensures
        r == opens_value(s@),
{
    let v = chars_of(trim_text(s).as_str());
    v.len() > 0 && (v[0] == '{' || v[0] == '[')
}

/// Replace strings that hold an object or an array by what they hold.
pub fn normalize_json(value: &Json, layers: usize) -> (r: Json)
    ensures
        r@ == normalized(value@, layers as nat),
    decreases layers, value,
{
    match value {
        Json::Null => Json::Null,
        Json::Bool(b) => Json::Bool(*b),
        Json::Number(s, n) => Json::Number(s.clone(), *n),
        Json::Text(s) => {
            if layers > 0 && opens_json(s.as_str()) {
                if let Some(inner) = parse_json(trim_text(s.as_str()).as_str()) {
                    return normalize_json(&inner, layers - 1);
                }
            }
            Json::Text(s.clone())
        },
        Json::Array(items) => {
            let ghost all = trees(items@);
            let mut out: Vec<Json> = Vec::new();
            let mut i: usize = 0;
            proof {
                lemma_trees(items@);
                assert(all.take(0) =~= Seq::<Tree>::empty());
                assert(trees(out@) =~= normalized_all(all.take(0), layers as nat));
            }
            while i < items.len()
                invariant
                    value == Json::Array(*items),
                    all == trees(items@),
                    all.len() == items@.len(),
                    forall|j: int| 0 <= j < all.len() ==> #[trigger] all[j] == tree(items@[j]),
                    i <= items@.len(),
                    trees(out@) == normalized_all(all.take(i as int), layers as nat),
                decreases items@.len() - i,
            {
                assert(all.take(i + 1).drop_last() =~= all.take(i as int));
                assert(decreases_to!(value->Array_0 => value->Array_0@));
                assert(decreases_to!(items@ => items@[i as int]));
                let item = normalize_json(&items[i], layers);
                assert(out@.push(item).drop_last() =~= out@);
                out.push(item);
                i += 1;
            }
            assert(all.take(i as int) =~= all);
            Json::Array(out)
        },
        Json::Object(members) => {
            let ghost all = branches(members@);
            let mut out: Vec<Member> = Vec::new();
            let mut i: usize = 0;
            proof {
                lemma_branches(members@);
                assert(all.take(0) =~= Seq::<(Seq<char>, Tree)>::empty());
                assert(branches(out@) =~= normalized_members(all.take(0), layers as nat));
            }
            while i < members.len()
                invariant
                    value == Json::Object(*members),
                    all == branches(members@),
                    all.len() == members@.len(),
                    forall|j: int|
                        0 <= j < all.len() ==> #[trigger] all[j] == (
                            members@[j].key@,
                            tree(members@[j].value),
                        ),
                    i <= members@.len(),
                    branches(out@) == normalized_members(all.take(i as int), layers as nat),
                decreases members@.len() - i,
            {
                assert(all.take(i + 1).drop_last() =~= all.take(i as int));
                assert(decreases_to!(value->Object_0 => value->Object_0@));
                assert(decreases_to!(members@ => members@[i as int]));
                assert(decreases_to!(members@[i as int] => members@[i as int].value));
                let item = Member {
                    key: members[i].key.clone(),
                    value: normalize_json(&members[i].value, layers),
                };
                assert(out@.push(item).drop_last() =~= out@);
                out.push(item);
                i += 1;
            }
            assert(all.take(i as int) =~= all);
            Json::Object(out)
        },
    }
}

/// A value printed in a fenced block.
pub open spec fn fenced(t: Tree) -> Seq<char> {
    "```json\n"@ + pretty_json(t) + "\n```"@
}

/// A value printed in a fenced block.
pub fn fenced_json(value: &Json) -> (r: String)
    ensures
        r@ == fenced(value@),
{
    let mut out = "```json\n".to_owned();
    out.append(pretty_text(value).as_str());
    out.append("\n```");
    out
}

/// A text as the transcript shows it: one that holds an object or an array is
/// printed as JSON, any other is shown as it is.
pub open spec fn readable(s: Seq<char>) -> Seq<char> {
    match parsed_json(text::trim(s)) {
        Some(t) if opens_value(s) => fenced(normalized(t, JSON_LAYERS as nat)),
        _ => s,
    }
}

/// A text as the transcript shows it.
pub fn readable_text(s: &str) -> (r: String)
    ensures
        r@ == readable(s@),
{
    if opens_json(s) {
        if let Some(value) = parse_json(trim_text(s).as_str()) {
            return fenced_json(&normalize_json(&value, JSON_LAYERS));
        }
    }
    s.to_owned()
}

/// The text of an entry, where the value has that entry and it is a string.
pub open spec fn get_text(t: Tree, key: Seq<char>) -> Option<Seq<char>> {
    match get(t, key) {
        Some(Tree::Text(s)) => Some(s),
        _ => None,
    }
}

/// A result with output of a process: stdout, then stderr where there is any,
/// then the exit code where it is not zero.
pub open spec fn process_text(t: Tree) -> Seq<char> {
    let out = match get(t, "stdout"@) {
        Some(Tree::Text(s)) => readable(text::trim_end(s)),
        Some(v) => fenced(v),
        None => Seq::empty(),
    };
    let err = match get_text(t, "stderr"@) {
        Some(s) => s,
        None => Seq::empty(),
    };
    let with_err = if text::trim(err).len() == 0 {
        out
    } else {
        out + (if out.len() == 0 {
            Seq::empty()
        } else {
            seq!['\n']
        }) + "[stderr]\n"@ + text::trim_end(err)
    };
    match get(t, "exit_code"@) {
        Some(Tree::Number(_, Some(code))) if code != 0 => with_err + "\n[exit "@
            + text::signed_decimal(code as int) + "]"@,
        _ => with_err,
    }
}

/// The text shown for a parsed tool result.
pub open spec fn value_text(t: Tree) -> Seq<char> {
    match get_text(t, "error"@) {
        Some(error) => "[error] "@ + readable(error) + (match get_text(t, "call"@) {
            Some(call) => seq!['\n'] + call,
            None => Seq::empty(),
        }),
        None => match get(t, "content"@) {
            Some(Tree::Text(s)) => readable(s),
            Some(v) => fenced(v),
            None => if get(t, "exit_code"@) is Some || get(t, "stdout"@) is Some || get(
                t,
                "stderr"@,
            ) is Some {
                process_text(t)
            } else {
                match t {
                    Tree::Text(s) => readable(s),
                    _ => fenced(t),
                }
            },
        },
    }
}

/// The text shown for a tool result.
pub open spec fn result_text(s: Seq<char>) -> Seq<char> {
    match parsed_json(s) {
        Some(t) => value_text(normalized(t, JSON_LAYERS as nat)),
        None => readable(s),
    }
}

/// The output of a process as the transcript shows it.
fn process_output(value: &Json) -> (r: String)
    ensures
        r@ == process_text(value@),
{
    let mut out = match member(value, "stdout") {
        Some(Json::Text(s)) => readable_text(trim_end_text(s.as_str()).as_str()),
        Some(v) => fenced_json(v),
        None => String::new(),
    };
    let ghost first = out@;
    let err = match member(value, "stderr") {
        Some(Json::Text(s)) => s.clone(),
        _ => String::new(),
    };
    if !trim_text(err.as_str()).as_str().is_empty() {
        if !out.as_str().is_empty() {
            out.push('\n');
            assert(out@ =~= first + seq!['\n']);
        } else {
            assert(out@ =~= first + Seq::<char>::empty());
        }
        out.append("[stderr]\n");
        out.append(trim_end_text(err.as_str()).as_str());
    }
    if let Some(Json::Number(_, Some(code))) = member(value, "exit_code") {
        if *code != 0 {
            out.append("\n[exit ");
            out.append(signed_text(*code).as_str());
            out.append("]");
        }
    }
    out
}

/// The text shown for a parsed tool result: its payload where it has one, the
/// error with the call that failed, the output of a process, or all of it.
pub fn tool_value_text(value: &Json) -> (r: String)
    ensures
        r@ == value_text(value@),
{
    if let Some(Json::Text(error)) = member(value, "error") {
        let mut out = "[error] ".to_owned();
        out.append(readable_text(error.as_str()).as_str());
        let ghost first = out@;
        if let Some(Json::Text(call)) = member(value, "call") {
            out.push('\n');
            out.append(call.as_str());
            assert(out@ =~= first + (seq!['\n'] + call@));
        } else {
            assert(out@ =~= first + Seq::<char>::empty());
        }
        return out;
    }
    match member(value, "content") {
        Some(Json::Text(s)) => {
            return readable_text(s.as_str());
        },
        Some(v) => {
            return fenced_json(v);
        },
        None => {},
    }
    if member(value, "exit_code").is_some() || member(value, "stdout").is_some() || member(
        value,
        "stderr",
    ).is_some() {
        return process_output(value);
    }
    match value {
        Json::Text(s) => readable_text(s.as_str()),
        _ => fenced_json(value),
    }
}

/// The text shown for a tool result. Text that is no JSON is shown as it is,
/// and JSON inside of strings is never shown with its escapes.
pub fn tool_result_text(s: &str) -> (r: String)
    ensures
        r@ == result_text(s@),
{
    match parse_json(s) {
        Some(raw) => tool_value_text(&normalize_json(&raw, JSON_LAYERS)),
        None => readable_text(s),
    }
}

} // verus!
