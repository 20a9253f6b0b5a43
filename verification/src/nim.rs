//! Helpers for NIM-served models: which models are NIM models, how request
//! bodies are cleaned for them, and which settings a model calls for.
//!
//! Nothing here touches the process environment. A function that calls for a
//! variable to be set returns the assignment, and the caller makes it.

use vstd::prelude::*;
use vstd::utf8::encode_utf8;
use crate::json::{
    field_views, item_views, lemma_field_views, lemma_item_views, lookup, with_key, Json,
    JsonNumber, JsonView,
};
use crate::text::{chars_of, contains, has_substring, joined, string_of};

verus! {

/// The characters that can stand in a header's name: the ASCII letters and
/// digits, and ``!#$%&'*+-.^_`|~``.
pub open spec fn header_name_char(c: char) -> bool {
    let u = c as u32;
    ||| u == 0x21
    ||| 0x23 <= u <= 0x27
    ||| u == 0x2A
    ||| u == 0x2B
    ||| u == 0x2D
    ||| u == 0x2E
    ||| 0x30 <= u <= 0x39
    ||| 0x41 <= u <= 0x5A
    ||| 0x5E <= u <= 0x7A
    ||| u == 0x7C
    ||| u == 0x7E
}

/// The texts that can be a header's name: from 1 to 65535 characters, each
/// one that can stand in a name.
pub open spec fn valid_header_name(name: Seq<char>) -> bool {
    &&& 1 <= name.len() <= 65535
    &&& forall|i: int| 0 <= i < name.len() ==> header_name_char(#[trigger] name[i])
}

/// `http::HeaderName::from_bytes`: whether the bytes of `name` make a header
/// name. They do if there are from 1 to 65535 of them and each is a letter,
/// a digit or one of the signs that a name may hold.
#[verifier::external_body]
fn header_name_ok(name: &str) -> (ok: bool)
    ensures
        ok == valid_header_name(name@),
{
    http::HeaderName::from_bytes(name.as_bytes()).is_ok()
}

/// The texts that can be a header's value: those without a control character
/// other than the tab.
pub open spec fn valid_header_value(value: Seq<char>) -> bool {
    forall|i: int|
        0 <= i < value.len() ==> ((#[trigger] value[i]) as u32 >= 32 && value[i] as u32 != 127)
            || value[i] == '\t'
}

/// `http::HeaderValue::from_str`: whether `value` can be a header's value.
/// It can unless one of its bytes is a control character other than the tab.
#[verifier::external_body]
fn header_value_ok(value: &str) -> (ok: bool)
    ensures
        ok == valid_header_value(value@),
{
    http::HeaderValue::from_str(value).is_ok()
}

/// Helpers for NIM-served models.
pub struct NimHelper;

/// Whether a model name is that of a NIM model: it holds one of the family
/// names.
pub open spec fn nim_model(model: Seq<char>) -> bool {
    ||| has_substring(model, "meta/llama3"@)
    ||| has_substring(model, "meta/llama-3"@)
    ||| has_substring(model, "mistralai/mixtral"@)
    ||| has_substring(model, "mistralai/mistral"@)
    ||| has_substring(model, "nvidia/nemotron"@)
    ||| has_substring(model, "nvidia/llama"@)
}

/// The plain form of a character: the typographic quotes become `'` and `"`,
/// the en dash `-`, the em dash `--`, the ellipsis `...`; any other character
/// stays.
pub open spec fn plain_char(c: char) -> Seq<char> {
    if c == '\u{2018}' || c == '\u{2019}' {
        seq!['\'']
    } else if c == '\u{201C}' || c == '\u{201D}' {
        seq!['"']
    } else if c == '\u{2013}' {
        seq!['-']
    } else if c == '\u{2014}' {
        seq!['-', '-']
    } else if c == '\u{2026}' {
        seq!['.', '.', '.']
    } else {
        seq![c]
    }
}

/// Whether a character is a tag character: U+E0020 to U+E007F.
pub open spec fn tag_char(c: char) -> bool {
    0xE0020 <= c as u32 <= 0xE007F
}

/// How a text is cleaned.
#[derive(Debug, Clone, Copy, PartialEq, Eq, Structural)]
pub enum Cleaning {
    /// Typographic characters become plain ones.
    Typography,
    /// Tag characters are removed.
    Tags,
}

/// What becomes of one character under a cleaning.
pub open spec fn cleaned_char(how: Cleaning, c: char) -> Seq<char> {
    match how {
        Cleaning::Typography => plain_char(c),
        Cleaning::Tags => if tag_char(c) {
            Seq::empty()
        } else {
            seq![c]
        },
    }
}

/// A text under a cleaning: each character's part, in order.
pub open spec fn cleaned_text(how: Cleaning, s: Seq<char>) -> Seq<char>
    decreases s.len(),
{
    if s.len() == 0 {
        Seq::empty()
    } else {
        cleaned_text(how, s.drop_last()) + cleaned_char(how, s.last())
    }
}

/// A message under a cleaning: where it is an object whose `content` is a
/// string, the string is cleaned; any other value stays.
pub open spec fn cleaned_message(how: Cleaning, message: JsonView) -> JsonView {
    match message {
        JsonView::Object(fields) => match lookup(fields, "content"@) {
            Some(JsonView::String(s)) => JsonView::Object(
                with_key(fields, "content"@, JsonView::String(cleaned_text(how, s))),
            ),
            _ => message,
        },
        _ => message,
    }
}

/// The value of `messages` under a cleaning: where it is an array, each of
/// its items is cleaned as a message; any other value stays.
pub open spec fn cleaned_messages(how: Cleaning, messages: JsonView) -> JsonView {
    match messages {
        JsonView::Array(items) => JsonView::Array(
            items.map_values(|m: JsonView| cleaned_message(how, m)),
        ),
        _ => messages,
    }
}

/// A body whose `messages` are cleaned.
pub open spec fn with_cleaned_messages(how: Cleaning, body: JsonView) -> JsonView {
    match body {
        JsonView::Object(fields) => match lookup(fields, "messages"@) {
            Some(m) => JsonView::Object(with_key(fields, "messages"@, cleaned_messages(how, m))),
            None => body,
        },
        _ => body,
    }
}

/// A body whose `prompt`, where it is a string, is made plain.
pub open spec fn with_plain_prompt(body: JsonView) -> JsonView {
    match body {
        JsonView::Object(fields) => match lookup(fields, "prompt"@) {
            Some(JsonView::String(p)) => JsonView::Object(
                with_key(fields, "prompt"@, JsonView::String(cleaned_text(Cleaning::Typography, p))),
            ),
            _ => body,
        },
        _ => body,
    }
}

/// The input with its typographic characters made plain: in the `content` of
/// each message, and in the `prompt`.
pub open spec fn sanitized_input(input: JsonView) -> JsonView {
    with_plain_prompt(with_cleaned_messages(Cleaning::Typography, input))
}

/// The body with the tag characters removed from the `content` of each
/// message.
pub open spec fn sanitized_prompt(body: JsonView) -> JsonView {
    with_cleaned_messages(Cleaning::Tags, body)
}

/// Cleans a text.
pub fn clean_text(how: Cleaning, s: &str) -> (cleaned: String)
    ensures
        cleaned@ == cleaned_text(how, s@),
{
    let v = chars_of(s);
    let mut out: Vec<char> = Vec::new();
    let mut i: usize = 0;
    proof {
        assert(v@.take(0) =~= Seq::<char>::empty());
    }
    while i < v.len()
        invariant
            i <= v.len(),
            out@ == cleaned_text(how, v@.take(i as int)),
        decreases v.len() - i,
    {
        let c = v[i];
        let ghost before = out@;
        match how {
            Cleaning::Typography => {
                if c == '\u{2018}' || c == '\u{2019}' {
                    out.push('\'');
                } else if c == '\u{201C}' || c == '\u{201D}' {
                    out.push('"');
                } else if c == '\u{2013}' {
                    out.push('-');
                } else if c == '\u{2014}' {
                    out.push('-');
                    out.push('-');
                } else if c == '\u{2026}' {
                    out.push('.');
                    out.push('.');
                    out.push('.');
                } else {
                    out.push(c);
                }
            },
            Cleaning::Tags => {
                let u: u32 = c as u32;
                if !(0xE0020 <= u && u <= 0xE007F) {
                    out.push(c);
                }
            },
        }
        proof {
            let t = v@.take(i + 1);
            assert(t.drop_last() =~= v@.take(i as int));
            assert(t.last() == c);
            assert(out@ =~= before + cleaned_char(how, c));
        }
        i += 1;
    }
    proof {
        assert(v@.take(v.len() as int) =~= v@);
    }
    string_of(&out)
}

/// Cleans a message.
fn clean_message(how: Cleaning, message: &Json) -> (cleaned: Json)
    ensures
        cleaned@ == cleaned_message(how, message@),
{
    match message.get("content") {
        Some(content) => match content.as_str() {
            Some(s) => message.with_field("content", Json::String(clean_text(how, s))),
            None => message.clone(),
        },
        None => message.clone(),
    }
}

/// Cleans the value of `messages`.
fn clean_messages(how: Cleaning, messages: &Json) -> (cleaned: Json)
    ensures
        cleaned@ == cleaned_messages(how, messages@),
{
    match messages {
        Json::Array(items) => {
            let mut out: Vec<Json> = Vec::new();
            let mut i: usize = 0;
            while i < items.len()
                invariant
                    i <= items.len(),
                    out@.len() == i,
                    forall|k: int|
                        0 <= k < i ==> (#[trigger] out@[k])@ == cleaned_message(how, items@[k]@),
                decreases items.len() - i,
            {
                out.push(clean_message(how, &items[i]));
                i += 1;
            }
            proof {
                lemma_item_views(out@);
                lemma_item_views(items@);
                assert(item_views(out@) =~= item_views(items@).map_values(
                    |m: JsonView| cleaned_message(how, m),
                ));
            }
            Json::Array(out)
        },
        _ => messages.clone(),
    }
}

/// The body with its `messages` cleaned.
fn clean_body_messages(how: Cleaning, body: &Json) -> (cleaned: Json)
    ensures
        cleaned@ == with_cleaned_messages(how, body@),
{
    match body.get("messages") {
        Some(messages) => body.with_field("messages", clean_messages(how, messages)),
        None => body.clone(),
    }
}

/// Makes the typographic characters of an input plain: in the `content` of
/// each message, and in the `prompt`. See `sanitized_input`.
pub fn sanitize_input(input: &mut Json)
    ensures
        final(input)@ == sanitized_input(old(input)@),
{
    let step = clean_body_messages(Cleaning::Typography, input);
    let done = match step.get("prompt") {
        Some(prompt) => match prompt.as_str() {
            Some(p) => step.with_field("prompt", Json::String(clean_text(Cleaning::Typography, p))),
            None => step.clone(),
        },
        None => step.clone(),
    };
    *input = done;
}

/// The assignments of variables that a function calls for: names and values.
pub open spec fn assignments(list: Seq<(String, String)>) -> Seq<(Seq<char>, Seq<char>)> {
    list.map_values(|a: (String, String)| (a.0@, a.1@))
}

/// The names of the NIM variables that are passed on as headers, in order.
pub open spec fn nim_variables() -> Seq<Seq<char>> {
    seq![
        "NIM_MAX_BATCH_SIZE"@,
        "NIM_MAX_SEQUENCE_LENGTH"@,
        "NIM_ENABLE_VLLM"@,
        "NIM_MAX_LORA_RANK"@,
        "NIM_ENABLE_KV_CACHE_REUSE"@,
        "NIM_LOW_MEMORY_MODE"@,
        "NIM_MAX_MODEL_LEN"@,
        "NIM_PEFT_SOURCE"@,
        "NIM_PEFT_REFRESH_INTERVAL"@,
    ]
}

/// The header that the variable `name` gives: its name and value, where the
/// environment sets it to a value that is not empty and both can stand in a
/// header. Each of the NIM variables' names can.
pub open spec fn header_from(env: Seq<(String, String)>, name: Seq<char>) -> Option<
    (Seq<char>, Seq<char>),
> {
    match crate::config::env_value(env, name) {
        Some(value) => if value.len() > 0 && valid_header_name(name) && valid_header_value(
            value,
        ) {
            Some((name, value))
        } else {
            None
        },
        None => None,
    }
}

/// The headers that the variables `names` give, in order.
pub open spec fn headers_from(env: Seq<(String, String)>, names: Seq<Seq<char>>) -> Seq<
    (Seq<char>, Seq<char>),
>
    decreases names.len(),
{
    if names.len() == 0 {
        Seq::empty()
    } else {
        let rest = headers_from(env, names.drop_last());
        match header_from(env, names.last()) {
            Some(header) => rest.push(header),
            None => rest,
        }
    }
}

/// The header map of the `http` crate. Nothing of its inside is visible
/// here; `header_values` and `header_names` name what it holds.
#[verifier::external_type_specification]
#[verifier::external_body]
#[verifier::reject_recursive_types(T)]
pub struct ExHeaderMap<T>(http::HeaderMap<T>);

/// The value of a header in the `http` crate.
#[verifier::external_type_specification]
#[verifier::external_body]
pub struct ExHeaderValue(http::HeaderValue);

/// What a header map holds: under each name that it holds, written in lower
/// case as the map writes it, the values of that name, each as its bytes.
pub uninterp spec fn header_values(headers: http::HeaderMap<http::HeaderValue>) -> Map<
    Seq<char>,
    Seq<Seq<u8>>,
>;

/// How many names a header map holds.
pub uninterp spec fn header_names(headers: http::HeaderMap<http::HeaderValue>) -> nat;

/// A number of names below which a header map takes every new name.
pub open spec fn header_room() -> nat {
    4096
}

/// What a header map holds once the header `name` was set to `value`: under
/// the name, in lower case, the value alone; under every other name what was
/// there.
pub open spec fn with_header(
    held: Map<Seq<char>, Seq<Seq<u8>>>,
    name: Seq<char>,
    value: Seq<char>,
) -> Map<Seq<char>, Seq<Seq<u8>>> {
    held.insert(crate::text::lowercase(name), seq![encode_utf8(value)])
}

/// What a header map holds once each header of `set` was set, in order.
pub open spec fn with_headers(
    held: Map<Seq<char>, Seq<Seq<u8>>>,
    set: Seq<(Seq<char>, Seq<char>)>,
) -> Map<Seq<char>, Seq<Seq<u8>>>
    decreases set.len(),
{
    if set.len() == 0 {
        held
    } else {
        with_header(with_headers(held, set.drop_last()), set.last().0, set.last().1)
    }
}

/// What a header map without headers holds: nothing.
pub open spec fn no_headers() -> Map<Seq<char>, Seq<Seq<u8>>> {
    Map::empty()
}

/// `http::HeaderMap::new`: a header map that holds nothing.
#[verifier::external_body]
fn empty_headers() -> (headers: http::HeaderMap<http::HeaderValue>)
    ensures
        header_values(headers) == no_headers(),
        header_names(headers) == 0,
{
    http::HeaderMap::new()
}

/// `http::HeaderMap::try_insert`, with the name made by
/// `http::HeaderName::from_bytes` and the value by
/// `http::HeaderValue::from_str`. Where the map takes the header, the value
/// stands alone under the name, which the map writes in lower case, and the
/// other names are untouched. Where the map refuses it, the map holds what it
/// held. The map refuses a header only where it would have to grow its table
/// beyond 32768 places. It grows the table when the names take three
/// quarters of the places or, after many collisions, a fifth of them: so a
/// map that refuses holds more than 6553 names, and one that holds fewer
/// than `header_room` takes the header. A header adds at most one name.
#[verifier::external_body]
fn try_insert_header(
    headers: &mut http::HeaderMap<http::HeaderValue>,
    name: &str,
    value: &str,
) -> (set: bool)
    requires
        valid_header_name(name@),
        valid_header_value(value@),
    ensures
        set ==> header_values(*final(headers)) == with_header(
            header_values(*old(headers)),
            name@,
            value@,
        ),
        !set ==> header_values(*final(headers)) == header_values(*old(headers)),
        header_names(*old(headers)) < header_room() ==> set,
        header_names(*final(headers)) <= header_names(*old(headers)) + 1,
{
    match (http::HeaderName::from_bytes(name.as_bytes()), http::HeaderValue::from_str(value)) {
        (Ok(name), Ok(value)) => headers.try_insert(name, value).is_ok(),
        _ => false,
    }
}

/// Whether each header of `set` has a name that can be a header's name and a
/// value that can be a header's value.
pub open spec fn valid_headers(set: Seq<(Seq<char>, Seq<char>)>) -> bool {
    forall|k: int|
        0 <= k < set.len() ==> valid_header_name((#[trigger] set[k]).0) && valid_header_value(
            set[k].1,
        )
}

/// The headers that variables give can stand in a header, and there is at
/// most one for each variable.
pub proof fn lemma_headers_from_valid(env: Seq<(String, String)>, names: Seq<Seq<char>>)
    ensures
        valid_headers(headers_from(env, names)),
        headers_from(env, names).len() <= names.len(),
    decreases names.len(),
{
    if names.len() > 0 {
        lemma_headers_from_valid(env, names.drop_last());
    }
}

/// Sets each header of `wanted` in `headers`, in order, until the map
/// refuses one; returns how many were set.
fn set_headers(headers: &mut http::HeaderMap<http::HeaderValue>, wanted: &Vec<(String, String)>) -> (set:
    usize)
    requires
        valid_headers(assignments(wanted@)),
    ensures
        set <= wanted@.len(),
        header_values(*final(headers)) == with_headers(
            header_values(*old(headers)),
            assignments(wanted@).take(set as int),
        ),
        header_names(*old(headers)) + wanted@.len() <= header_room() ==> set == wanted@.len(),
{
    let ghost start = header_values(*headers);
    let ghost names = header_names(*headers);
    let ghost all = assignments(wanted@);
    let mut i: usize = 0;
    proof {
        assert(all.take(0) =~= Seq::<(Seq<char>, Seq<char>)>::empty());
    }
    while i < wanted.len()
        invariant
            i <= wanted@.len(),
            all == assignments(wanted@),
            start == header_values(*old(headers)),
            names == header_names(*old(headers)),
            valid_headers(all),
            header_values(*headers) == with_headers(start, all.take(i as int)),
            header_names(*headers) <= names + i,
        decreases wanted@.len() - i,
    {
        proof {
            let t = all.take(i + 1);
            assert(t.drop_last() =~= all.take(i as int));
            assert(t.last() == all[i as int]);
            assert(valid_header_name(all[i as int].0));
        }
        if !try_insert_header(headers, wanted[i].0.as_str(), wanted[i].1.as_str()) {
            return i;
        }
        i += 1;
    }
    proof {
        assert(all.take(i as int) =~= all);
    }
    i
}

/// Each of the NIM variables' names can be a header's name.
pub proof fn lemma_nim_variables_are_header_names()
    ensures
        forall|i: int|
            0 <= i < nim_variables().len() ==> valid_header_name(#[trigger] nim_variables()[i]),
{
    reveal_strlit("NIM_MAX_BATCH_SIZE");
    reveal_strlit("NIM_MAX_SEQUENCE_LENGTH");
    reveal_strlit("NIM_ENABLE_VLLM");
    reveal_strlit("NIM_MAX_LORA_RANK");
    reveal_strlit("NIM_ENABLE_KV_CACHE_REUSE");
    reveal_strlit("NIM_LOW_MEMORY_MODE");
    reveal_strlit("NIM_MAX_MODEL_LEN");
    reveal_strlit("NIM_PEFT_SOURCE");
    reveal_strlit("NIM_PEFT_REFRESH_INTERVAL");
    let names = nim_variables();
    assert(valid_header_name(names[0]));
    assert(valid_header_name(names[1]));
    assert(valid_header_name(names[2]));
    assert(valid_header_name(names[3]));
    assert(valid_header_name(names[4]));
    assert(valid_header_name(names[5]));
    assert(valid_header_name(names[6]));
    assert(valid_header_name(names[7]));
    assert(valid_header_name(names[8]));
}

/// The assignments that handling the known issues of a request calls for.
/// A mixtral model with LoRA adapters sets `NIM_MAX_LORA_RANK` to 256. A
/// request with `max_tokens`, while `NIM_MAX_MODEL_LEN` is not set, sets it
/// to 8192 for a llama-3 model and to 128000 for nemotron-4-340b.
pub open spec fn issue_assignments(body: JsonView, model: Seq<char>, model_len_set: bool) -> Seq<
    (Seq<char>, Seq<char>),
> {
    let lora = if has_substring(model, "mixtral"@) && body.get("lora_adapters"@) is Some {
        seq![("NIM_MAX_LORA_RANK"@, "256"@)]
    } else {
        Seq::empty()
    };
    let len = if body.get("max_tokens"@) is Some && !model_len_set {
        if has_substring(model, "llama-3"@) {
            seq![("NIM_MAX_MODEL_LEN"@, "8192"@)]
        } else if has_substring(model, "nemotron-4-340b"@) {
            seq![("NIM_MAX_MODEL_LEN"@, "128000"@)]
        } else {
            Seq::empty()
        }
    } else {
        Seq::empty()
    };
    lora + len
}

/// Whether a request would make the provider fail: `logprobs` is 2, `echo`
/// is true and `stream` is false.
pub open spec fn needs_streaming(body: JsonView) -> bool {
    &&& body.get("logprobs"@) matches Some(JsonView::Number(n))
    &&& n.unsigned_value() == Some(2u64)
    &&& body.field_is_bool("echo"@, true)
    &&& body.field_is_bool("stream"@, false)
}

/// The body after the known issues were handled: a request that would make
/// the provider fail asks for a stream instead.
pub open spec fn issues_handled(body: JsonView) -> JsonView {
    if needs_streaming(body) {
        match body {
            JsonView::Object(fields) => JsonView::Object(
                with_key(fields, "stream"@, JsonView::Bool(true)),
            ),
            _ => body,
        }
    } else {
        body
    }
}

/// Whether a model is one that runs out of memory on a virtual GPU.
pub open spec fn vgpu_prone(model: Seq<char>) -> bool {
    has_substring(model, "llama-3.1-70b"@) || has_substring(model, "llama-3.1-405b"@)
}

/// Whether the GPU query printed the name of a virtual GPU.
pub open spec fn reports_vgpu(gpu_names: Option<&str>) -> bool {
    match gpu_names {
        Some(names) => has_substring(names@, "vGPU"@),
        None => false,
    }
}

/// The assignments that configuring for a model calls for, which are none
/// unless it is a NIM model: `NIM_LOW_MEMORY_MODE` to 1 where the model has
/// issues with a virtual GPU, and `NIM_CACHE_PATH` to `.cache/nim-cache`
/// under the home directory, where that variable is not set and there is a
/// home directory.
pub open spec fn model_assignments(
    model: Seq<char>,
    gpu_names: Option<&str>,
    cache_path_set: bool,
    home: Option<&str>,
) -> Seq<(Seq<char>, Seq<char>)> {
    if nim_model(model) {
        (if vgpu_prone(model) && reports_vgpu(gpu_names) {
            seq![("NIM_LOW_MEMORY_MODE"@, "1"@)]
        } else {
            Seq::empty()
        }) + (match home {
            Some(h) => if !cache_path_set {
                seq![("NIM_CACHE_PATH"@, h@ + "/.cache/nim-cache"@)]
            } else {
                Seq::empty()
            },
            None => Seq::empty(),
        })
    } else {
        Seq::empty()
    }
}

/// The assignments that a model calls for by its family.
pub open spec fn family_assignments(model: Seq<char>) -> Seq<(Seq<char>, Seq<char>)> {
    (if has_substring(model, "llama-3.1"@) {
        seq![("NIM_ENABLE_PAGED_ATTENTION"@, "1"@), ("NIM_ENABLE_TENSOR_PARALLEL"@, "1"@)]
    } else if has_substring(model, "mistral"@) {
        seq![("NIM_ENABLE_PAGED_ATTENTION"@, "1"@)]
    } else if has_substring(model, "llava"@) {
        seq![("NIM_ENABLE_MULTIMODAL"@, "1"@)]
    } else {
        Seq::empty()
    }) + seq![("NIM_USE_FAST_TOKENIZER"@, "1"@)]
}

/// The decimal `mantissa * 10^exponent` as a JSON value.
pub open spec fn decimal_value(mantissa: u64, exponent: i32) -> JsonView {
    JsonView::Number(JsonNumber { negative: false, mantissa, exponent })
}

/// The sampling parameters that suit a model: for a llama-3.1 model a
/// temperature of 0.7, a `top_p` of 0.95 and 1024 tokens; for mixtral 0.7,
/// 0.9 and 2048; for any other mistral 0.7, 0.9 and 1024; for any other
/// model none.
pub open spec fn model_parameters(model: Seq<char>) -> JsonView {
    if has_substring(model, "llama-3.1"@) {
        JsonView::Object(
            seq![
                ("max_tokens"@, decimal_value(1024, 0)),
                ("temperature"@, decimal_value(7, -1i32)),
                ("top_p"@, decimal_value(95, -2i32)),
            ],
        )
    } else if has_substring(model, "mixtral"@) {
        JsonView::Object(
            seq![
                ("max_tokens"@, decimal_value(2048, 0)),
                ("temperature"@, decimal_value(7, -1i32)),
                ("top_p"@, decimal_value(9, -1i32)),
            ],
        )
    } else if has_substring(model, "mistral"@) {
        JsonView::Object(
            seq![
                ("max_tokens"@, decimal_value(1024, 0)),
                ("temperature"@, decimal_value(7, -1i32)),
                ("top_p"@, decimal_value(9, -1i32)),
            ],
        )
    } else {
        JsonView::Object(Seq::empty())
    }
}

/// An assignment of `value` to the variable `name`.
fn assignment(name: &str, value: &str) -> (a: (String, String))
    ensures
        a.0@ == name@,
        a.1@ == value@,
{
    (name.to_owned(), value.to_owned())
}

/// The sampling parameters `max_tokens`, `temperature` and `top_p`.
fn parameters(max_tokens: u64, temperature: JsonNumber, top_p: JsonNumber) -> (params: Json)
    ensures
        params@ == JsonView::Object(
            seq![
                ("max_tokens"@, decimal_value(max_tokens, 0)),
                ("temperature"@, JsonView::Number(temperature)),
                ("top_p"@, JsonView::Number(top_p)),
            ],
        ),
{
    let mut fields: Vec<(String, Json)> = Vec::new();
    fields.push(("max_tokens".to_owned(), Json::unsigned(max_tokens)));
    fields.push(("temperature".to_owned(), Json::Number(temperature)));
    fields.push(("top_p".to_owned(), Json::Number(top_p)));
    proof {
        lemma_field_views(fields@);
        assert(field_views(fields@) =~= seq![
            ("max_tokens"@, decimal_value(max_tokens, 0)),
            ("temperature"@, JsonView::Number(temperature)),
            ("top_p"@, JsonView::Number(top_p)),
        ]);
    }
    Json::Object(fields)
}

impl NimHelper {
    /// Whether `model` names a NIM model: see `nim_model`.
    pub fn is_nim_model(model: &str) -> (yes: bool)
        ensures
            yes == nim_model(model@),
    {
        contains(model, "meta/llama3") || contains(model, "meta/llama-3") || contains(
            model,
            "mistralai/mixtral",
        ) || contains(model, "mistralai/mistral") || contains(model, "nvidia/nemotron")
            || contains(model, "nvidia/llama")
    }

    /// The headers that the NIM variables of `env` give, in the order of the
    /// variables: one for each variable that `env` sets to a value that is
    /// not empty and can be a header's value.
    pub fn environment_headers(env: &Vec<(String, String)>) -> (wanted: Vec<(String, String)>)
        ensures
            assignments(wanted@) == headers_from(env@, nim_variables()),
    {
        let names: [&str; 9] = [
            "NIM_MAX_BATCH_SIZE",
            "NIM_MAX_SEQUENCE_LENGTH",
            "NIM_ENABLE_VLLM",
            "NIM_MAX_LORA_RANK",
            "NIM_ENABLE_KV_CACHE_REUSE",
            "NIM_LOW_MEMORY_MODE",
            "NIM_MAX_MODEL_LEN",
            "NIM_PEFT_SOURCE",
            "NIM_PEFT_REFRESH_INTERVAL",
        ];
        let ghost list = nim_variables();
        let mut wanted: Vec<(String, String)> = Vec::new();
        let mut i: usize = 0;
        proof {
            assert(list.take(0) =~= Seq::<Seq<char>>::empty());
            assert(assignments(wanted@) =~= headers_from(env@, list.take(0)));
        }
        while i < 9
            invariant
                i <= 9,
                list == nim_variables(),
                names@.len() == 9,
                forall|k: int| 0 <= k < 9 ==> (#[trigger] names@[k])@ == list[k],
                assignments(wanted@) == headers_from(env@, list.take(i as int)),
            decreases 9 - i,
        {
            let ghost before = wanted@;
            proof {
                let t = list.take(i + 1);
                assert(t.drop_last() =~= list.take(i as int));
                assert(t.last() == list[i as int]);
            }
            match crate::config::env_get(env, names[i]) {
                Some(value) => {
                    if !value.as_str().is_empty() && header_name_ok(names[i]) && header_value_ok(
                        value.as_str(),
                    ) {
                        wanted.push((names[i].to_owned(), value.clone()));
                        proof {
                            assert(assignments(wanted@) =~= assignments(before).push(
                                (list[i as int], value@),
                            ));
                        }
                    }
                },
                None => {},
            }
            i += 1;
        }
        proof {
            assert(list.take(9) =~= list);
        }
        wanted
    }

    /// Sets in `headers` the headers that the NIM variables of `env` give, in
    /// the order of the variables: see `headers_from`. A header that is set
    /// takes the place of the values that the map held under its name.
    /// Returns how many headers were set: all of them, unless the map refused
    /// one, which a map that is not nearly full does not do; it then holds
    /// those that were set before.
    pub fn add_nim_environment_headers(
        headers: &mut http::HeaderMap<http::HeaderValue>,
        env: &Vec<(String, String)>,
    ) -> (set: usize)
        ensures
            set <= headers_from(env@, nim_variables()).len(),
            header_values(*final(headers)) == with_headers(
                header_values(*old(headers)),
                headers_from(env@, nim_variables()).take(set as int),
            ),
            header_names(*old(headers)) + headers_from(env@, nim_variables()).len()
                <= header_room() ==> set == headers_from(env@, nim_variables()).len(),
    {
        let wanted = Self::environment_headers(env);
        proof {
            lemma_headers_from_valid(env@, nim_variables());
        }
        set_headers(headers, &wanted)
    }

    /// A header map that holds the headers that the NIM variables of `env`
    /// give, and nothing else.
    pub fn nim_headers(env: &Vec<(String, String)>) -> (headers: http::HeaderMap<http::HeaderValue>)
        ensures
            header_values(headers) == with_headers(
                no_headers(),
                headers_from(env@, nim_variables()),
            ),
    {
        let mut headers = empty_headers();
        let ghost wanted = headers_from(env@, nim_variables());
        proof {
            lemma_headers_from_valid(env@, nim_variables());
            assert(wanted.take(wanted.len() as int) =~= wanted);
        }
        let _ = Self::add_nim_environment_headers(&mut headers, env);
        headers
    }

    /// Removes the tag characters from the `content` of each message: see
    /// `sanitized_prompt`.
    pub fn sanitize_prompt(json: &mut Json)
        ensures
            final(json)@ == sanitized_prompt(old(json)@),
    {
        let done = clean_body_messages(Cleaning::Tags, json);
        *json = done;
    }

    /// Handles the known issues of a request for `model`: see
    /// `issues_handled` for what becomes of the body, and `issue_assignments`
    /// for the assignments that it returns. `model_len_set` says whether the
    /// variable `NIM_MAX_MODEL_LEN` is set.
    pub fn handle_known_issues(json: &mut Json, model: &str, model_len_set: bool) -> (calls_for:
        Vec<(String, String)>)
        ensures
            final(json)@ == issues_handled(old(json)@),
            assignments(calls_for@) == issue_assignments(old(json)@, model@, model_len_set),
    {
        let two = match json.get("logprobs") {
            Some(value) => match value.as_number() {
                Some(n) => match n.as_u64() {
                    Some(k) => k == 2,
                    None => false,
                },
                None => false,
            },
            None => false,
        };
        let has_lora = json.has("lora_adapters");
        let has_max_tokens = json.has("max_tokens");
        if two && json.field_is_bool("echo", true) && json.field_is_bool("stream", false) {
            let changed = json.with_field("stream", Json::Bool(true));
            *json = changed;
        }
        let mut out: Vec<(String, String)> = Vec::new();
        if contains(model, "mixtral") && has_lora {
            out.push(assignment("NIM_MAX_LORA_RANK", "256"));
        }
        if has_max_tokens && !model_len_set {
            if contains(model, "llama-3") {
                out.push(assignment("NIM_MAX_MODEL_LEN", "8192"));
            } else if contains(model, "nemotron-4-340b") {
                out.push(assignment("NIM_MAX_MODEL_LEN", "128000"));
            }
        }
        proof {
            assert(assignments(out@) =~= issue_assignments(old(json)@, model@, model_len_set));
        }
        out
    }

    /// Whether `model` is one that runs out of memory on a virtual GPU, so
    /// that the GPUs have to be looked at.
    pub fn is_vgpu_prone(model: &str) -> (yes: bool)
        ensures
            yes == vgpu_prone(model@),
    {
        contains(model, "llama-3.1-70b") || contains(model, "llama-3.1-405b")
    }

    /// Whether `model` runs on a virtual GPU that it has issues with.
    /// `gpu_names` is what the GPU query printed, where it ran. The caller
    /// then sets `NIM_LOW_MEMORY_MODE` to 1.
    pub fn has_vgpu_issues(model: &str, gpu_names: Option<&str>) -> (yes: bool)
        ensures
            yes == (vgpu_prone(model@) && reports_vgpu(gpu_names)),
    {
        if Self::is_vgpu_prone(model) {
            match gpu_names {
                Some(names) => contains(names, "vGPU"),
                None => false,
            }
        } else {
            false
        }
    }

    /// The assignments that configuring for `model` calls for: see
    /// `model_assignments`. `gpu_names` is what the GPU query printed, where
    /// it ran; `cache_path_set` says whether `NIM_CACHE_PATH` is set; `home`
    /// is the home directory, where there is one.
    pub fn configure_for_model(
        model: &str,
        gpu_names: Option<&str>,
        cache_path_set: bool,
        home: Option<&str>,
    ) -> (calls_for: Vec<(String, String)>)
        ensures
            assignments(calls_for@) == model_assignments(model@, gpu_names, cache_path_set, home),
    {
        let mut out: Vec<(String, String)> = Vec::new();
        if Self::is_nim_model(model) {
            if Self::has_vgpu_issues(model, gpu_names) {
                out.push(assignment("NIM_LOW_MEMORY_MODE", "1"));
            }
            if !cache_path_set {
                match home {
                    Some(h) => {
                        out.push(("NIM_CACHE_PATH".to_owned(), joined(h, "/.cache/nim-cache")));
                    },
                    None => {},
                }
            }
        }
        proof {
            assert(assignments(out@) =~= model_assignments(
                model@,
                gpu_names,
                cache_path_set,
                home,
            ));
        }
        out
    }
}

/// The assignments that `model` calls for by its family: see
/// `family_assignments`.
pub fn configure_nim_environment(model: &str) -> (calls_for: Vec<(String, String)>)
    ensures
        assignments(calls_for@) == family_assignments(model@),
{
    let mut out: Vec<(String, String)> = Vec::new();
    if contains(model, "llama-3.1") {
        out.push(assignment("NIM_ENABLE_PAGED_ATTENTION", "1"));
        out.push(assignment("NIM_ENABLE_TENSOR_PARALLEL", "1"));
    } else if contains(model, "mistral") {
        out.push(assignment("NIM_ENABLE_PAGED_ATTENTION", "1"));
    } else if contains(model, "llava") {
        out.push(assignment("NIM_ENABLE_MULTIMODAL", "1"));
    }
    out.push(assignment("NIM_USE_FAST_TOKENIZER", "1"));
    proof {
        assert(assignments(out@) =~= family_assignments(model@));
    }
    out
}

/// The sampling parameters that suit `model`: see `model_parameters`.
pub fn get_model_parameters(model: &str) -> (params: Json)
    ensures
        params@ == model_parameters(model@),
{
    if contains(model, "llama-3.1") {
        parameters(1024, JsonNumber::decimal(false, 7, -1), JsonNumber::decimal(false, 95, -2))
    } else if contains(model, "mixtral") {
        parameters(2048, JsonNumber::decimal(false, 7, -1), JsonNumber::decimal(false, 9, -1))
    } else if contains(model, "mistral") {
        parameters(1024, JsonNumber::decimal(false, 7, -1), JsonNumber::decimal(false, 9, -1))
    } else {
        let fields: Vec<(String, Json)> = Vec::new();
        proof {
            lemma_field_views(fields@);
            assert(field_views(fields@) =~= Seq::<(Seq<char>, JsonView)>::empty());
        }
        Json::Object(fields)
    }
}

} // verus!
