//! The conversational webhook's decision logic: extracting the command and
//! session from a webhook request's slot and parameter structure, and
//! building the typed response the assistant platform expects.
//!
//! The host parses the wire JSON into [`JsonValue`] and performs the
//! program upload the command asks for.

use vstd::prelude::*;

verus! {

use vstd::string::StringExecFns;

/// A JSON-shaped value as the webhook logic reads it: the host converts the
/// wire JSON into this form (numbers it would only echo are carried as
/// whole numbers).
pub enum JsonValue {
    Null,
    Bool(bool),
    Int(i64),
    Str(String),
    Array(Vec<JsonValue>),
    Object(Vec<(String, JsonValue)>),
}

/// The position of the first occurrence of `key`, scanning in order.
pub open spec fn spec_key_index(fields: Seq<(String, JsonValue)>, key: Seq<char>) -> Option<int>
    decreases fields.len(),
{
    if fields.len() == 0 {
        None
    } else if fields[0].0@ == key {
        Some(0int)
    } else {
        match spec_key_index(fields.drop_first(), key) {
            Some(i) => Some(i + 1),
            None => None,
        }
    }
}

/// `spec_key_index` returns the first matching position, or `None` exactly
/// when the key is absent.
pub proof fn lemma_spec_key_index(fields: Seq<(String, JsonValue)>, key: Seq<char>)
    ensures
        match spec_key_index(fields, key) {
            Some(i) => 0 <= i < fields.len() && fields[i].0@ == key && (forall|j: int|
                0 <= j < i ==> fields[j].0@ != key),
            None => forall|j: int| 0 <= j < fields.len() ==> fields[j].0@ != key,
        },
    decreases fields.len(),
{
    if fields.len() > 0 && fields[0].0@ != key {
        lemma_spec_key_index(fields.drop_first(), key);
        assert(forall|j: int| 1 <= j < fields.len() ==> fields[j] == fields.drop_first()[j - 1]);
    }
}

/// The value under the first occurrence of `key`, scanning in order.
pub open spec fn spec_object_get(fields: Seq<(String, JsonValue)>, key: Seq<char>) -> Option<
    JsonValue,
> {
    match spec_key_index(fields, key) {
        Some(i) => Some(fields[i].1),
        None => None,
    }
}

impl JsonValue {
    /// The member of an object under `key`; `None` for a missing key or any
    /// other shape of value.
    pub open spec fn spec_get(self, key: Seq<char>) -> Option<JsonValue> {
        match self {
            JsonValue::Object(fields) => spec_object_get(fields@, key),
            _ => None,
        }
    }

    /// Looks `key` up in an object, taking the first occurrence.
    #[verifier::loop_isolation(false)]
    pub fn get<'a>(&'a self, key: &str) -> (r: Option<&'a JsonValue>)
        ensures
            match r {
                Some(v) => self.spec_get(key@) == Some(*v),
                None => self.spec_get(key@) is None,
            },
    {
        let key = key.to_owned();
        match self {
            JsonValue::Object(fields) => {
                let mut k: usize = 0;
                while k < fields.len()
                    invariant
                        k <= fields.len(),
                        forall|j: int| 0 <= j < k ==> fields@[j].0@ != key@,
                    decreases fields.len() - k,
                {
                    if fields[k].0 == key {
                        let ret = &fields[k].1;
                        proof {
                            lemma_spec_key_index(fields@, key@);
                            assert(fields@[k as int].0@ == key@);
                            if let Some(i) = spec_key_index(fields@, key@) {
                                assert(i <= k as int);
                                assert(i >= k as int);
                            }
                            assert(spec_object_get(fields@, key@) == Some(fields@[k as int].1));
                        }
                        return Some(ret);
                    }
                    k += 1;
                }
                proof {
                    lemma_spec_key_index(fields@, key@);
                }
                None
            },
            _ => None,
        }
    }

    /// The string this value holds, if it is a string.
    pub fn as_str(&self) -> (r: Option<&String>)
        ensures
            r == (match self {
                JsonValue::Str(s) => Some(s),
                _ => None::<&String>,
            }),
    {
        match self {
            JsonValue::Str(s) => Some(s),
            _ => None,
        }
    }

    /// The elements this value holds, if it is an array.
    pub fn as_array(&self) -> (r: Option<&Vec<JsonValue>>)
        ensures
            r == (match self {
                JsonValue::Array(items) => Some(items),
                _ => None::<&Vec<JsonValue>>,
            }),
    {
        match self {
            JsonValue::Array(items) => Some(items),
            _ => None,
        }
    }
}

/// Whether every element is a string.
pub open spec fn all_strings(items: Seq<JsonValue>) -> bool {
    forall|i: int| 0 <= i < items.len() ==> items[i] is Str
}

/// The characters of each element of an all-string array.
pub open spec fn strings_of(items: Seq<JsonValue>) -> Seq<Seq<char>> {
    items.map_values(
        |v: JsonValue|
            match v {
                JsonValue::Str(s) => s@,
                _ => Seq::<char>::empty(),
            },
    )
}

/// The handlers the webhook understands.
pub enum HandlerNameRaw {
    RunProgram,
}

/// The handler block of a webhook request.
pub struct HookHandler {
    pub name: HandlerNameRaw,
}

/// The command a webhook request resolves to.
pub enum HandlerCommand {
    RunProgram { program: String },
}

/// The scene block of a webhook request: its slot structure.
pub struct HookScene {
    pub slots: JsonValue,
}

/// The intent block of a webhook request: its parameter structure.
pub struct HookIntent {
    pub params: JsonValue,
}

/// The session block of a webhook request.
pub struct HookSession {
    pub id: SessionId,
}

/// A whole webhook request, as the host hands it over.
pub struct HookRequest {
    pub handler: HookHandler,
    pub session: HookSession,
    pub scene: HookScene,
    pub intent: HookIntent,
}

/// What a slot's `value` string is, if the slot carries one.
pub open spec fn spec_slot_str(slots: JsonValue, slot: Seq<char>) -> Option<Seq<char>> {
    match slots.spec_get(slot) {
        Some(item) => match item.spec_get("value"@) {
            Some(JsonValue::Str(s)) => Some(s@),
            _ => None,
        },
        None => None,
    }
}

impl HookScene {
    /// The string value of `slot`, if the slot holds one.
    pub fn slot_as_str(&self, slot: &str) -> (r: Option<String>)
        ensures
            match r {
                Some(s) => spec_slot_str(self.slots, slot@) == Some(s@),
                None => spec_slot_str(self.slots, slot@) is None,
            },
    {
        match self.slots.get(slot) {
            Some(item) => match item.get("value") {
                Some(value) => match value.as_str() {
                    Some(s) => Some(s.clone()),
                    None => None,
                },
                None => None,
            },
            None => None,
        }
    }

    /// The string elements of `slot`'s array value: `Some` exactly when the
    /// slot holds an array whose elements are all strings.
    #[verifier::loop_isolation(false)]
    pub fn slot_as_array(&self, slot: &str) -> (r: Option<Vec<String>>)
        ensures
            match (r, self.slots.spec_get(slot@)) {
                (Some(out), Some(item)) => match item.spec_get("value"@) {
                    Some(JsonValue::Array(items)) => all_strings(items@) && out.deep_view()
                        == strings_of(items@),
                    _ => false,
                },
                (None, Some(item)) => match item.spec_get("value"@) {
                    Some(JsonValue::Array(items)) => !all_strings(items@),
                    _ => true,
                },
                (None, None) => true,
                (Some(_), None) => false,
            },
    {
        match self.slots.get(slot) {
            Some(item) => match item.get("value") {
                Some(value) => match value.as_array() {
                    Some(items) => {
                        let mut out: Vec<String> = Vec::new();
                        let mut k: usize = 0;
                        while k < items.len()
                            invariant
                                k <= items.len(),
                                out@.len() == k,
                                forall|j: int| 0 <= j < k ==> items@[j] is Str,
                                forall|j: int|
                                    0 <= j < k ==> (#[trigger] out@[j])@ == strings_of(items@)[j],
                            decreases items.len() - k,
                        {
                            match &items[k] {
                                JsonValue::Str(s) => {
                                    out.push(s.clone());
                                    proof {
                                        assert(out@[k as int]@ == strings_of(items@)[k as int]);
                                    }
                                },
                                _ => {
                                    proof {
                                        assert(!(items@[k as int] is Str));
                                        assert(!all_strings(items@));
                                    }
                                    return None;
                                },
                            }
                            k += 1;
                        }
                        proof {
                            assert(out.deep_view() =~= strings_of(items@));
                        }
                        Some(out)
                    },
                    None => None,
                },
                None => None,
            },
            None => None,
        }
    }
}

/// What a parameter's `resolved` string is, if the parameter carries one.
pub open spec fn spec_param_str(params: JsonValue, param: Seq<char>) -> Option<Seq<char>> {
    match params.spec_get(param) {
        Some(item) => match item.spec_get("resolved"@) {
            Some(JsonValue::Str(s)) => Some(s@),
            _ => None,
        },
        None => None,
    }
}

impl HookIntent {
    /// The resolved string value of `param`, if the parameter holds one.
    pub fn param_as_str(&self, param: &str) -> (r: Option<String>)
        ensures
            match r {
                Some(s) => spec_param_str(self.params, param@) == Some(s@),
                None => spec_param_str(self.params, param@) is None,
            },
    {
        match self.params.get(param) {
            Some(item) => match item.get("resolved") {
                Some(value) => match value.as_str() {
                    Some(s) => Some(s.clone()),
                    None => None,
                },
                None => None,
            },
            None => None,
        }
    }
}

/// The session and command a webhook request resolves to.
pub struct HookData {
    pub session: SessionId,
    pub command: HandlerCommand,
}

impl HookData {
    /// Resolves a webhook request: the run-program handler takes its program
    /// from the `program` parameter; a request without a resolved program is
    /// rejected.
    pub fn from_request(request: HookRequest) -> (r: Option<HookData>)
        ensures
            match r {
                Some(data) => ({
                    &&& data.session == request.session.id
                    &&& match data.command {
                        HandlerCommand::RunProgram { program } => spec_param_str(
                            request.intent.params,
                            "program"@,
                        ) == Some(program@),
                    }
                }),
                None => spec_param_str(request.intent.params, "program"@) is None,
            },
    {
        match request.handler.name {
            HandlerNameRaw::RunProgram => match request.intent.param_as_str("program") {
                Some(program) => Some(
                    HookData {
                        session: request.session.id,
                        command: HandlerCommand::RunProgram { program },
                    },
                ),
                None => None,
            },
        }
    }
}

/// A session correlation identifier, echoed into the response.
pub struct SessionId(pub String);

impl SessionId {
    /// Starts a response that speaks `data` back into this session.
    pub fn make_response(self, data: &str) -> (r: HookResponseBuilder)
        ensures
            r.session.id == self,
            r.prompt.first_simple.speech@ == data@,
            r.prompt.first_simple.text is None,
    {
        HookResponseBuilder {
            session: HookSession { id: self },
            prompt: HookPrompt {
                first_simple: SimplePrompt { speech: data.to_owned(), text: None },
            },
        }
    }
}

/// A spoken prompt of a webhook response.
pub struct SimplePrompt {
    pub speech: String,
    pub text: Option<String>,
}

/// The prompt block of a webhook response.
pub struct HookPrompt {
    pub first_simple: SimplePrompt,
}

/// How a type override replaces the platform's type entries.
pub enum TypeOverrideMode {
    TypeReplace,
}

/// A webhook response in the making: the session and prompt are fixed, the
/// type overrides come from the program list.
pub struct HookResponseBuilder {
    pub session: HookSession,
    pub prompt: HookPrompt,
}

/// One overridden type entry: a program name and its spoken synonyms.
pub struct TypeEntry {
    pub name: String,
    pub synonyms: Vec<String>,
}

/// The entries a type override carries.
pub struct TypeSynonym {
    pub entries: Vec<TypeEntry>,
}

/// One type override of a webhook response.
pub struct TypeOverride {
    pub name: String,
    pub synonym: TypeSynonym,
    pub type_override_mode: TypeOverrideMode,
}

/// A whole webhook response.
pub struct HookResponse {
    pub session: HookResponseSession,
    pub prompt: HookPrompt,
}

/// The session block of a webhook response: the echoed identifier and the
/// type overrides.
pub struct HookResponseSession {
    pub type_overrides: Vec<TypeOverride>,
    pub id: SessionId,
}

/// The lowercase form of a string, exactly as the standard library folds
/// case.
pub uninterp spec fn lower_of(s: Seq<char>) -> Seq<char>;

/// Relies on `str::to_lowercase`: the result is a function of the
/// characters alone.
#[verifier::external_body]
fn lowercase(s: &str) -> (r: String)
    ensures
        r@ == lower_of(s@),
{
    s.to_lowercase()
}

/// What `build` owes for one program: an entry named after the program
/// whose sole synonym is its lowercase form.
pub open spec fn type_entry_ok(e: TypeEntry, program: Seq<char>) -> bool {
    &&& e.name@ == program
    &&& e.synonyms@.len() == 1
    &&& e.synonyms@[0]@ == lower_of(program)
}

impl HookResponseBuilder {
    /// Finishes the response: one `program` type override, replacing the
    /// platform's entries with one entry per known program, each answering
    /// to its lowercase form.
    pub fn build(self, programs: Vec<String>) -> (r: HookResponse)
        ensures
            r.session.id == self.session.id,
            r.prompt == self.prompt,
            r.session.type_overrides@.len() == 1,
            r.session.type_overrides@[0].name@ == "program"@,
            r.session.type_overrides@[0].type_override_mode is TypeReplace,
            r.session.type_overrides@[0].synonym.entries@.len() == programs@.len(),
            forall|j: int|
                0 <= j < programs@.len() ==> type_entry_ok(
                    #[trigger] r.session.type_overrides@[0].synonym.entries@[j],
                    programs@[j]@,
                ),
    {
        let mut entries: Vec<TypeEntry> = Vec::new();
        let mut k: usize = 0;
        while k < programs.len()
            invariant
                k <= programs.len(),
                entries@.len() == k,
                forall|j: int|
                    0 <= j < k ==> type_entry_ok(#[trigger] entries@[j], programs@[j]@),
            decreases programs.len() - k,
        {
            let name = programs[k].clone();
            let mut synonyms: Vec<String> = Vec::new();
            synonyms.push(lowercase(name.as_str()));
            entries.push(TypeEntry { name, synonyms });
            k += 1;
        }
        let mut type_overrides: Vec<TypeOverride> = Vec::new();
        type_overrides.push(
            TypeOverride {
                name: "program".to_owned(),
                type_override_mode: TypeOverrideMode::TypeReplace,
                synonym: TypeSynonym { entries },
            },
        );
        HookResponse {
            session: HookResponseSession { id: self.session.id, type_overrides },
            prompt: self.prompt,
        }
    }
}

} // verus!
