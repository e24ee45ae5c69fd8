//! Item identifiers in requests to the Responses API.

use vstd::prelude::*;

verus! {

/// A JSON value.
#[verifier::external_type_specification]
#[verifier::external_body]
pub struct ExJsonValue(serde_json::Value);

/// The fields of a JSON object; none if the value is no object.
pub uninterp spec fn json_fields(value: serde_json::Value) -> Option<
    Map<Seq<char>, serde_json::Value>,
>;

/// The items of a JSON array; none if the value is no array.
pub uninterp spec fn json_items(value: serde_json::Value) -> Option<Seq<serde_json::Value>>;

/// The text of a JSON string; none if the value is no string.
pub uninterp spec fn json_text(value: serde_json::Value) -> Option<Seq<char>>;

/// Wraps `serde_json::Value::get_mut` with a name.
///
/// Trusted: there is a result exactly if the value is an object with a field
/// of that name; it is that field, and what is written to it is written to the
/// object, whose other fields stay. A field left as it was leaves the object as
/// it was.
#[verifier::external_body]
fn field_mut<'a>(value: &'a mut serde_json::Value, name: &str) -> (r: Option<
    &'a mut serde_json::Value,
>)
    ensures
        match r {
            Some(field) => {
                &&& json_fields(*old(value)) is Some
                &&& json_fields(*old(value))->0.dom().contains(name@)
                &&& *field == json_fields(*old(value))->0[name@]
                &&& json_fields(*final(value)) == Some(
                    json_fields(*old(value))->0.insert(name@, *final(field)),
                )
                &&& *final(field) == *field ==> *final(value) == *old(value)
            },
            None => {
                &&& !(json_fields(*old(value)) is Some && json_fields(
                    *old(value),
                )->0.dom().contains(name@))
                &&& *final(value) == *old(value)
            },
        },
{
    value.get_mut(name)
}

/// Wraps `serde_json::Value::as_array_mut`.
///
/// Trusted: there is a result exactly if the value is an array; it is the list
/// of its items, and what is written to the list is written to the array. A
/// list left as it was leaves the array as it was.
#[verifier::external_body]
fn items_mut<'a>(value: &'a mut serde_json::Value) -> (r: Option<&'a mut Vec<serde_json::Value>>)
    ensures
        match r {
            Some(items) => {
                &&& json_items(*old(value)) == Some(items@)
                &&& json_items(*final(value)) == Some(final(items)@)
                &&& *final(items) == *items ==> *final(value) == *old(value)
            },
            None => json_items(*old(value)) is None && *final(value) == *old(value),
        },
{
    value.as_array_mut()
}

/// Wraps `serde_json::Value::as_object_mut` and `serde_json::Map::insert` with
/// a string.
///
/// Trusted: the result tells whether the value is an object; an object then has
/// that string under that name and its other fields as before, and any other
/// value is left as it was.
#[verifier::external_body]
fn set_text(value: &mut serde_json::Value, name: &str, text: &str) -> (r: bool)
    ensures
        r == (json_fields(*old(value)) is Some),
        r ==> exists|s: serde_json::Value|
            #![trigger json_text(s)]
            json_text(s) == Some(text@) && json_fields(*final(value)) == Some(
                json_fields(*old(value))->0.insert(name@, s),
            ),
        !r ==> *final(value) == *old(value),
{
    match value.as_object_mut() {
        Some(object) => {
            object.insert(name.to_owned(), serde_json::Value::String(text.to_owned()));
            true
        },
        None => false,
    }
}

/// How a request body is compressed.
#[derive(Clone, Copy, Debug, PartialEq, Eq, Structural)]
pub enum Compression {
    Uncompressed,
    Zstd,
}

impl Default for Compression {
    fn default() -> (r: Self)
        ensures
            r is Uncompressed,
    {
        Compression::Uncompressed
    }
}

/// The identifier of an item of a prompt.
#[derive(Clone, Debug, PartialEq, Eq)]
pub enum ResponseItem {
    Message { id: Option<String> },
    AgentMessage { id: Option<String> },
    Reasoning { id: String },
    LocalShellCall { id: Option<String> },
    FunctionCall { id: Option<String> },
    ToolSearchCall { id: Option<String> },
    FunctionCallOutput { id: Option<String> },
    CustomToolCall { id: Option<String> },
    CustomToolCallOutput { id: Option<String> },
    ToolSearchOutput { id: Option<String> },
    WebSearchCall { id: Option<String> },
    ImageGenerationCall { id: String },
    Compaction { id: Option<String> },
    /// An item without an identifier.
    Other,
}

/// An identifier that is there and is not empty.
pub open spec fn usable(id: Option<String>) -> Option<Seq<char>> {
    match id {
        Some(s) => if s@.len() > 0 {
            Some(s@)
        } else {
            None
        },
        None => None,
    }
}

/// The identifier that a stateless request sends with an item: the one it has.
pub open spec fn stateless_id(item: ResponseItem) -> Option<Seq<char>> {
    match item {
        ResponseItem::Message { id } => usable(id),
        ResponseItem::AgentMessage { id } => usable(id),
        ResponseItem::Reasoning { id } => usable(Some(id)),
        ResponseItem::LocalShellCall { id } => usable(id),
        ResponseItem::FunctionCall { id } => usable(id),
        ResponseItem::ToolSearchCall { id } => usable(id),
        ResponseItem::FunctionCallOutput { id } => usable(id),
        ResponseItem::CustomToolCall { id } => usable(id),
        ResponseItem::CustomToolCallOutput { id } => usable(id),
        ResponseItem::ToolSearchOutput { id } => usable(id),
        ResponseItem::WebSearchCall { id } => usable(id),
        ResponseItem::ImageGenerationCall { id } => usable(Some(id)),
        ResponseItem::Compaction { id } => usable(id),
        ResponseItem::Other => None,
    }
}

/// Whether a stateful request may treat such an item as stored.
pub open spec fn may_be_stored(item: ResponseItem) -> bool {
    item is Reasoning || item is Message || item is WebSearchCall || item is FunctionCall
        || item is ToolSearchCall || item is LocalShellCall || item is CustomToolCall
}

/// The identifier that a stateful request sends with an item.
pub open spec fn stateful_id(item: ResponseItem) -> Option<Seq<char>> {
    if may_be_stored(item) {
        stateless_id(item)
    } else {
        None
    }
}

pub open spec fn id_view(id: Option<&str>) -> Option<Seq<char>> {
    match id {
        Some(s) => Some(s@),
        None => None,
    }
}

fn usable_id<'a>(id: &'a Option<String>) -> (r: Option<&'a str>)
    ensures
        id_view(r) == usable(*id),
{
    match id {
        Some(s) => usable_text(s),
        None => None,
    }
}

fn usable_text<'a>(id: &'a String) -> (r: Option<&'a str>)
    ensures
        id_view(r) == usable(Some(*id)),
{
    let empty = id.as_str().is_empty();
    if empty {
        None
    } else {
        Some(id.as_str())
    }
}

impl ResponseItem {
    /// The identifier that a stateless request sends with this item.
    pub fn stateless_id(&self) -> (r: Option<&str>)
        ensures
            id_view(r) == stateless_id(*self),
    {
        match self {
            ResponseItem::Message { id } => usable_id(id),
            ResponseItem::AgentMessage { id } => usable_id(id),
            ResponseItem::Reasoning { id } => usable_text(id),
            ResponseItem::LocalShellCall { id } => usable_id(id),
            ResponseItem::FunctionCall { id } => usable_id(id),
            ResponseItem::ToolSearchCall { id } => usable_id(id),
            ResponseItem::FunctionCallOutput { id } => usable_id(id),
            ResponseItem::CustomToolCall { id } => usable_id(id),
            ResponseItem::CustomToolCallOutput { id } => usable_id(id),
            ResponseItem::ToolSearchOutput { id } => usable_id(id),
            ResponseItem::WebSearchCall { id } => usable_id(id),
            ResponseItem::ImageGenerationCall { id } => usable_text(id),
            ResponseItem::Compaction { id } => usable_id(id),
            ResponseItem::Other => None,
        }
    }

    /// The identifier that a stateful request sends with this item.
    pub fn stateful_id(&self) -> (r: Option<&str>)
        ensures
            id_view(r) == stateful_id(*self),
    {
        match self {
            ResponseItem::Message { .. }
            | ResponseItem::Reasoning { .. }
            | ResponseItem::WebSearchCall { .. }
            | ResponseItem::FunctionCall { .. }
            | ResponseItem::ToolSearchCall { .. }
            | ResponseItem::LocalShellCall { .. }
            | ResponseItem::CustomToolCall { .. } => self.stateless_id(),
            _ => None,
        }
    }
}

// ---------------------------------------------------------------------------
// Attaching
// ---------------------------------------------------------------------------
/// Whether `after` is `before` with an identifier, if it is an object and
/// there is one.
pub open spec fn id_attached(
    before: serde_json::Value,
    after: serde_json::Value,
    id: Option<Seq<char>>,
) -> bool {
    if json_fields(before) is Some && id is Some {
        exists|s: serde_json::Value|
            #![trigger json_text(s)]
            json_text(s) == id && json_fields(after) == Some(
                json_fields(before)->0.insert("id"@, s),
            )
    } else {
        after == before
    }
}

/// Whether `after` is `before` with identifiers on its first items.
pub open spec fn items_attached(
    before: Seq<serde_json::Value>,
    after: Seq<serde_json::Value>,
    ids: Seq<Option<Seq<char>>>,
) -> bool {
    &&& after.len() == before.len()
    &&& forall|i: int|
        #![trigger after[i]]
        0 <= i < before.len() ==> if i < ids.len() {
            id_attached(before[i], after[i], ids[i])
        } else {
            after[i] == before[i]
        }
}

/// The items under `input` in a request.
pub open spec fn input_items(payload: serde_json::Value) -> Option<Seq<serde_json::Value>> {
    match json_fields(payload) {
        Some(fields) => if fields.dom().contains("input"@) {
            json_items(fields["input"@])
        } else {
            None
        },
        None => None,
    }
}

/// Whether `after` is the request `before` with identifiers on its first input
/// items and nothing else changed.
pub open spec fn request_attached(
    before: serde_json::Value,
    after: serde_json::Value,
    ids: Seq<Option<Seq<char>>>,
) -> bool {
    match input_items(before) {
        None => after == before,
        Some(items) => {
            &&& input_items(after) is Some
            &&& items_attached(items, input_items(after)->0, ids)
            &&& json_fields(after)->0.dom() == json_fields(before)->0.dom()
            &&& forall|name: Seq<char>|
                name != "input"@ && json_fields(before)->0.dom().contains(name)
                    ==> #[trigger] json_fields(after)->0[name] == json_fields(before)->0[name]
        },
    }
}

pub open spec fn stateful_ids(items: Seq<ResponseItem>) -> Seq<Option<Seq<char>>> {
    items.map_values(|item: ResponseItem| stateful_id(item))
}

pub open spec fn stateless_ids(items: Seq<ResponseItem>) -> Seq<Option<Seq<char>>> {
    items.map_values(|item: ResponseItem| stateless_id(item))
}

fn attach_id(value: &mut serde_json::Value, id: Option<&str>)
    ensures
        id_attached(*old(value), *final(value), id_view(id)),
{
    match id {
        Some(id) => {
            let _ = set_text(value, "id", id);
        },
        None => {},
    }
}

fn attach_item_ids(items: &mut Vec<serde_json::Value>, ids: &Vec<Option<&str>>)
    ensures
        items_attached(
            old(items)@,
            final(items)@,
            ids@.map_values(|id: Option<&str>| id_view(id)),
        ),
{
    let total: usize = items.len();
    let mut i: usize = 0;
    let ghost wanted = ids@.map_values(|id: Option<&str>| id_view(id));
    while i < total && i < ids.len()
        invariant
            i <= total,
            i <= ids@.len(),
            total == items@.len(),
            items@.len() == old(items)@.len(),
            wanted == ids@.map_values(|id: Option<&str>| id_view(id)),
            forall|k: int|
                #![trigger items@[k]]
                0 <= k < i ==> id_attached(old(items)@[k], items@[k], wanted[k]),
            forall|k: int|
                #![trigger items@[k]]
                i <= k < total ==> items@[k] == old(items)@[k],
        decreases total - i,
    {
        attach_id(&mut items[i], ids[i]);
        i += 1;
    }
}

fn attach_to_input(payload_json: &mut serde_json::Value, ids: &Vec<Option<&str>>)
    ensures
        request_attached(
            *old(payload_json),
            *final(payload_json),
            ids@.map_values(|id: Option<&str>| id_view(id)),
        ),
{
    match field_mut(payload_json, "input") {
        Some(input) => match items_mut(input) {
            Some(items) => attach_item_ids(items, ids),
            None => {},
        },
        None => {},
    }
    assert(input_items(*old(payload_json)) is Some ==> json_fields(*payload_json)->0.dom()
        =~= json_fields(*old(payload_json))->0.dom());
}

/// Reattaches the item identifiers that stateful requests send.
///
/// Stateful requests use a narrow policy: they attach identifiers for prompt
/// items that may be treated as existing stored items.
pub fn attach_stateful_response_item_ids(
    payload_json: &mut serde_json::Value,
    original_items: &[ResponseItem],
)
    ensures
        request_attached(
            *old(payload_json),
            *final(payload_json),
            stateful_ids(original_items@),
        ),
{
    let mut ids: Vec<Option<&str>> = Vec::new();
    let mut i: usize = 0;
    while i < original_items.len()
        invariant
            i <= original_items@.len(),
            ids@.map_values(|id: Option<&str>| id_view(id)) == stateful_ids(original_items@).take(
                i as int,
            ),
        decreases original_items.len() - i,
    {
        let ghost before = ids@;
        ids.push(original_items[i].stateful_id());
        i += 1;
        assert(ids@.map_values(|id: Option<&str>| id_view(id)) =~= stateful_ids(
            original_items@,
        ).take(i as int)) by {
            assert(ids@.map_values(|id: Option<&str>| id_view(id)) =~= before.map_values(
                |id: Option<&str>| id_view(id),
            ).push(id_view(ids@.last())));
        }
    }
    assert(ids@.map_values(|id: Option<&str>| id_view(id)) =~= stateful_ids(original_items@));
    attach_to_input(payload_json, &ids);
}

/// Reattaches every item identifier that is not empty.
///
/// Stateless requests resend the full prompt history by value, so the server
/// only sees stable item identity when each known identifier is put back.
pub fn attach_stateless_response_item_ids(
    payload_json: &mut serde_json::Value,
    original_items: &[ResponseItem],
)
    ensures
        request_attached(
            *old(payload_json),
            *final(payload_json),
            stateless_ids(original_items@),
        ),
{
    let mut ids: Vec<Option<&str>> = Vec::new();
    let mut i: usize = 0;
    while i < original_items.len()
        invariant
            i <= original_items@.len(),
            ids@.map_values(|id: Option<&str>| id_view(id)) == stateless_ids(original_items@).take(
                i as int,
            ),
        decreases original_items.len() - i,
    {
        let ghost before = ids@;
        ids.push(original_items[i].stateless_id());
        i += 1;
        assert(ids@.map_values(|id: Option<&str>| id_view(id)) =~= stateless_ids(
            original_items@,
        ).take(i as int)) by {
            assert(ids@.map_values(|id: Option<&str>| id_view(id)) =~= before.map_values(
                |id: Option<&str>| id_view(id),
            ).push(id_view(ids@.last())));
        }
    }
    assert(ids@.map_values(|id: Option<&str>| id_view(id)) =~= stateless_ids(original_items@));
    attach_to_input(payload_json, &ids);
}

/// A stateful request sends no identifier that a stateless one would not send.
pub proof fn law_stateful_is_narrower(item: ResponseItem)
    ensures
        stateful_id(item) is Some ==> stateful_id(item) == stateless_id(item),
        stateless_id(item) is Some && may_be_stored(item) ==> stateful_id(item) is Some,
{
}

/// A stateless request has every identifier put back: each input item that is an
/// object and stands for an item with an identifier gets it under `id`, wherever
/// it stands, and keeps its other fields. All other input items stay as they are.
pub proof fn law_every_identifier_is_put_back(
    before: serde_json::Value,
    after: serde_json::Value,
    original_items: Seq<ResponseItem>,
    i: int,
)
    requires
        request_attached(before, after, stateless_ids(original_items)),
        input_items(before) is Some,
        0 <= i < input_items(before)->0.len(),
    ensures
        input_items(after) is Some,
        input_items(after)->0.len() == input_items(before)->0.len(),
        ({
            let was = input_items(before)->0[i];
            let is = input_items(after)->0[i];
            if i < original_items.len() && json_fields(was) is Some && stateless_id(
                original_items[i],
            ) is Some {
                &&& json_fields(is) is Some
                &&& json_fields(is)->0.dom() == json_fields(was)->0.dom().insert("id"@)
                &&& json_text(json_fields(is)->0["id"@]) == stateless_id(original_items[i])
                &&& forall|name: Seq<char>|
                    name != "id"@ && json_fields(was)->0.dom().contains(name)
                        ==> #[trigger] json_fields(is)->0[name] == json_fields(was)->0[name]
            } else {
                is == was
            }
        }),
{
    let ids = stateless_ids(original_items);
    lemma_attached(input_items(before)->0, input_items(after)->0, ids, i);
}

/// A stateful request puts back the identifiers of items that may be stored, in the
/// same way, and no others.
pub proof fn law_stored_identifiers_are_put_back(
    before: serde_json::Value,
    after: serde_json::Value,
    original_items: Seq<ResponseItem>,
    i: int,
)
    requires
        request_attached(before, after, stateful_ids(original_items)),
        input_items(before) is Some,
        0 <= i < input_items(before)->0.len(),
    ensures
        input_items(after) is Some,
        input_items(after)->0.len() == input_items(before)->0.len(),
        ({
            let was = input_items(before)->0[i];
            let is = input_items(after)->0[i];
            if i < original_items.len() && json_fields(was) is Some && stateful_id(
                original_items[i],
            ) is Some {
                &&& json_fields(is) is Some
                &&& json_fields(is)->0.dom() == json_fields(was)->0.dom().insert("id"@)
                &&& json_text(json_fields(is)->0["id"@]) == stateful_id(original_items[i])
                &&& forall|name: Seq<char>|
                    name != "id"@ && json_fields(was)->0.dom().contains(name)
                        ==> #[trigger] json_fields(is)->0[name] == json_fields(was)->0[name]
            } else {
                is == was
            }
        }),
{
    let ids = stateful_ids(original_items);
    lemma_attached(input_items(before)->0, input_items(after)->0, ids, i);
}

proof fn lemma_attached(
    before: Seq<serde_json::Value>,
    after: Seq<serde_json::Value>,
    ids: Seq<Option<Seq<char>>>,
    i: int,
)
    requires
        items_attached(before, after, ids),
        0 <= i < before.len(),
    ensures
        if i < ids.len() && json_fields(before[i]) is Some && ids[i] is Some {
            &&& json_fields(after[i]) is Some
            &&& json_fields(after[i])->0.dom() == json_fields(before[i])->0.dom().insert("id"@)
            &&& json_text(json_fields(after[i])->0["id"@]) == ids[i]
            &&& forall|name: Seq<char>|
                name != "id"@ && json_fields(before[i])->0.dom().contains(name)
                    ==> #[trigger] json_fields(after[i])->0[name] == json_fields(before[i])->0[name]
        } else {
            after[i] == before[i]
        },
{
    assert(after[i] == after[i]);
    if i < ids.len() && json_fields(before[i]) is Some && ids[i] is Some {
        assert(id_attached(before[i], after[i], ids[i]));
        let fields = json_fields(before[i])->0;
        let s = choose|s: serde_json::Value|
            #![trigger json_text(s)]
            json_text(s) == ids[i] && json_fields(after[i]) == Some(fields.insert("id"@, s));
        assert(fields.insert("id"@, s).dom() =~= fields.dom().insert("id"@));
    }
}

/// Whatever kind of item it is, an identifier that is there and is not empty is the
/// one that a stateless request sends. A stateful request sends it for messages,
/// reasoning and calls other than image generation, and for nothing else.
pub proof fn law_identifiers_by_kind(id: String)
    requires
        id@.len() > 0,
    ensures
        stateless_id(ResponseItem::Message { id: Some(id) }) == Some(id@),
        stateless_id(ResponseItem::AgentMessage { id: Some(id) }) == Some(id@),
        stateless_id(ResponseItem::Reasoning { id }) == Some(id@),
        stateless_id(ResponseItem::LocalShellCall { id: Some(id) }) == Some(id@),
        stateless_id(ResponseItem::FunctionCall { id: Some(id) }) == Some(id@),
        stateless_id(ResponseItem::ToolSearchCall { id: Some(id) }) == Some(id@),
        stateless_id(ResponseItem::FunctionCallOutput { id: Some(id) }) == Some(id@),
        stateless_id(ResponseItem::CustomToolCall { id: Some(id) }) == Some(id@),
        stateless_id(ResponseItem::CustomToolCallOutput { id: Some(id) }) == Some(id@),
        stateless_id(ResponseItem::ToolSearchOutput { id: Some(id) }) == Some(id@),
        stateless_id(ResponseItem::WebSearchCall { id: Some(id) }) == Some(id@),
        stateless_id(ResponseItem::ImageGenerationCall { id }) == Some(id@),
        stateless_id(ResponseItem::Compaction { id: Some(id) }) == Some(id@),
        stateless_id(ResponseItem::Other) is None,
        stateful_id(ResponseItem::Message { id: Some(id) }) == Some(id@),
        stateful_id(ResponseItem::Reasoning { id }) == Some(id@),
        stateful_id(ResponseItem::LocalShellCall { id: Some(id) }) == Some(id@),
        stateful_id(ResponseItem::FunctionCall { id: Some(id) }) == Some(id@),
        stateful_id(ResponseItem::ToolSearchCall { id: Some(id) }) == Some(id@),
        stateful_id(ResponseItem::CustomToolCall { id: Some(id) }) == Some(id@),
        stateful_id(ResponseItem::WebSearchCall { id: Some(id) }) == Some(id@),
        stateful_id(ResponseItem::AgentMessage { id: Some(id) }) is None,
        stateful_id(ResponseItem::FunctionCallOutput { id: Some(id) }) is None,
        stateful_id(ResponseItem::CustomToolCallOutput { id: Some(id) }) is None,
        stateful_id(ResponseItem::ToolSearchOutput { id: Some(id) }) is None,
        stateful_id(ResponseItem::ImageGenerationCall { id }) is None,
        stateful_id(ResponseItem::Compaction { id: Some(id) }) is None,
        stateful_id(ResponseItem::Other) is None,
{
}

/// A request without a list of input items is not touched, and no field of a
/// request but its input is.
pub proof fn law_only_the_input_changes(
    before: serde_json::Value,
    after: serde_json::Value,
    ids: Seq<Option<Seq<char>>>,
    name: Seq<char>,
)
    requires
        request_attached(before, after, ids),
    ensures
        input_items(before) is None ==> after == before,
        input_items(before) is Some ==> {
            &&& json_fields(after) is Some
            &&& json_fields(after)->0.dom().contains(name) <==> json_fields(
                before,
            )->0.dom().contains(name)
            &&& name != "input"@ && json_fields(before)->0.dom().contains(name) ==> json_fields(
                after,
            )->0[name] == json_fields(before)->0[name]
        },
        (json_fields(before) matches Some(f) && f.dom().contains("input"@) && json_items(
            f["input"@],
        ) is Some) ==> input_items(before) is Some,
{
}

} // verus!
