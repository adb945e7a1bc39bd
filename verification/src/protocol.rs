//! The requests that the commander decides on, and the decisions it gives.

use vstd::prelude::*;

use crate::text;

verus! {

/// A digest of thirty-two bytes.
pub type Digest32 = [u8; 32];

/// A parameter value of a request: what a JSON document can hold.
/// A number that is not an integer is kept as its decimal text.
#[derive(Debug)]
pub enum ParameterValue {
    Null,
    Bool(bool),
    Unsigned(u64),
    Negative(i64),
    Decimal(String),
    Text(String),
    List(Vec<ParameterValue>),
    Table(Vec<Parameter>),
}

/// A named parameter value.
#[derive(Debug)]
pub struct Parameter {
    pub name: String,
    pub value: ParameterValue,
}

/// What an actor asks a device to do.
#[derive(Debug)]
pub struct ActionEnvelope {
    pub request_id: String,
    pub organization_id: String,
    pub actor_id: String,
    pub device_id: String,
    pub action: String,
    pub target: String,
    pub parameters: Vec<Parameter>,
    pub requested_capabilities: Vec<String>,
    pub expires_at_unix_ms: u64,
    pub nonce: Vec<u8>,
}

/// An envelope together with the digest that seals it.
#[derive(Debug)]
pub struct ActionRequest {
    pub envelope: ActionEnvelope,
    pub envelope_digest: Digest32,
}

#[derive(Debug, Clone, Copy, PartialEq, Eq, Structural)]
pub enum PolicyDecisionKind {
    Auto,
    Approval,
    Deny,
}

/// What the policy says of one request.
#[derive(Debug, Clone)]
pub struct PolicyDecision {
    pub request_id: String,
    pub kind: PolicyDecisionKind,
    pub policy_id: String,
    pub reason_code: String,
    pub required_capability: Option<String>,
    pub envelope_digest: Digest32,
}

/// A decision by what it says.
#[verifier::ext_equal]
pub struct DecisionModel {
    pub request_id: Seq<char>,
    pub kind: PolicyDecisionKind,
    pub policy_id: Seq<char>,
    pub reason_code: Seq<char>,
    pub required_capability: Option<Seq<char>>,
    pub envelope_digest: Digest32,
}

impl View for PolicyDecision {
    type V = DecisionModel;

    open spec fn view(&self) -> DecisionModel {
        DecisionModel {
            request_id: self.request_id@,
            kind: self.kind,
            policy_id: self.policy_id@,
            reason_code: self.reason_code@,
            required_capability: match self.required_capability {
                Some(capability) => Some(capability@),
                None => None,
            },
            envelope_digest: self.envelope_digest,
        }
    }
}

/// Why a request is not what it was sealed as.
#[derive(Debug, Clone, Copy, PartialEq, Eq, Structural)]
pub enum ProtocolError {
    DigestMismatch,
    Expired,
    Invalid,
}

/// The value of the first parameter called `name`.
pub open spec fn parameter(parameters: Seq<Parameter>, name: Seq<char>) -> Option<ParameterValue>
    decreases parameters.len(),
{
    if parameters.len() == 0 {
        None
    } else if parameters[0].name@ == name {
        Some(parameters[0].value)
    } else {
        parameter(parameters.drop_first(), name)
    }
}

pub open spec fn text_parameter(parameters: Seq<Parameter>, name: Seq<char>) -> Option<Seq<char>> {
    match parameter(parameters, name) {
        Some(ParameterValue::Text(text)) => Some(text@),
        _ => None,
    }
}

pub open spec fn unsigned_parameter(parameters: Seq<Parameter>, name: Seq<char>) -> Option<u64> {
    match parameter(parameters, name) {
        Some(ParameterValue::Unsigned(n)) => Some(n),
        _ => None,
    }
}

pub open spec fn flag_parameter(parameters: Seq<Parameter>, name: Seq<char>) -> Option<bool> {
    match parameter(parameters, name) {
        Some(ParameterValue::Bool(b)) => Some(b),
        _ => None,
    }
}

/// Every value of the list is a text.
pub open spec fn all_texts(values: Seq<ParameterValue>) -> bool {
    forall|i: int| 0 <= i < values.len() ==> (#[trigger] values[i]) is Text
}

/// The texts of a list of text values.
pub open spec fn value_texts(values: Seq<ParameterValue>) -> Seq<Seq<char>> {
    values.map_values(|v: ParameterValue| v->Text_0@)
}

proof fn lemma_parameter(parameters: Seq<Parameter>, name: Seq<char>, i: int)
    requires
        0 <= i <= parameters.len(),
        forall|k: int| 0 <= k < i ==> (#[trigger] parameters[k]).name@ != name,
        i < parameters.len() ==> parameters[i].name@ == name,
    ensures
        parameter(parameters, name) == (if i < parameters.len() {
            Some(parameters[i].value)
        } else {
            None
        }),
    decreases parameters.len(),
{
    if i > 0 {
        let rest = parameters.drop_first();
        assert forall|k: int| 0 <= k < i - 1 implies (#[trigger] rest[k]).name@ != name by {
            assert(rest[k] == parameters[k + 1]);
        }
        lemma_parameter(rest, name, i - 1);
    }
}

pub fn find_parameter<'a>(parameters: &'a Vec<Parameter>, name: &str) -> (value: Option<
    &'a ParameterValue,
>)
    ensures
        value is Some == parameter(parameters@, name@) is Some,
        value is Some ==> *value->0 == parameter(parameters@, name@)->0,
{
    let mut i: usize = 0;
    while i < parameters.len()
        invariant
            i <= parameters@.len(),
            forall|k: int| 0 <= k < i ==> (#[trigger] parameters@[k]).name@ != name@,
        decreases parameters@.len() - i,
    {
        if text::same_text(parameters[i].name.as_str(), name) {
            proof {
                lemma_parameter(parameters@, name@, i as int);
            }
            return Some(&parameters[i].value);
        }
        i = i + 1;
    }
    proof {
        lemma_parameter(parameters@, name@, i as int);
    }
    None
}

pub fn find_text<'a>(parameters: &'a Vec<Parameter>, name: &str) -> (text: Option<&'a str>)
    ensures
        text is Some == text_parameter(parameters@, name@) is Some,
        text is Some ==> text->0@ == text_parameter(parameters@, name@)->0,
{
    match find_parameter(parameters, name) {
        Some(ParameterValue::Text(text)) => Some(text.as_str()),
        _ => None,
    }
}

pub fn find_unsigned(parameters: &Vec<Parameter>, name: &str) -> (n: Option<u64>)
    ensures
        n == unsigned_parameter(parameters@, name@),
{
    match find_parameter(parameters, name) {
        Some(ParameterValue::Unsigned(n)) => Some(*n),
        _ => None,
    }
}

pub fn find_flag(parameters: &Vec<Parameter>, name: &str) -> (b: Option<bool>)
    ensures
        b == flag_parameter(parameters@, name@),
{
    match find_parameter(parameters, name) {
        Some(ParameterValue::Bool(b)) => Some(*b),
        _ => None,
    }
}

/// The texts of a list, where every value in it is one.
pub fn text_list(values: &Vec<ParameterValue>) -> (list: Option<Vec<String>>)
    ensures
        list is Some == all_texts(values@),
        list is Some ==> text::texts(list->0@) == value_texts(values@),
{
    let mut list: Vec<String> = Vec::new();
    let mut i: usize = 0;
    while i < values.len()
        invariant
            i <= values@.len(),
            list@.len() == i,
            forall|k: int| 0 <= k < i ==> (#[trigger] values@[k]) is Text,
            forall|k: int| 0 <= k < i ==> (#[trigger] list@[k])@ == values@[k]->Text_0@,
        decreases values@.len() - i,
    {
        match &values[i] {
            ParameterValue::Text(text) => {
                list.push(text.clone());
            },
            _ => {
                proof {
                    assert(!(values@[i as int] is Text));
                }
                return None;
            },
        }
        i = i + 1;
    }
    proof {
        assert(text::texts(list@) =~= value_texts(values@));
    }
    Some(list)
}

// ---------------------------------------------------------------------------
// Entries of a table

/// The entry has a name and holds a text.
pub open spec fn text_entry(entry: Parameter, name: Seq<char>, value: Seq<char>) -> bool {
    entry.name@ == name && entry.value is Text && entry.value->Text_0@ == value
}

pub open spec fn flag_entry(entry: Parameter, name: Seq<char>, value: bool) -> bool {
    entry.name@ == name && entry.value == ParameterValue::Bool(value)
}

pub open spec fn number_entry(entry: Parameter, name: Seq<char>, value: u64) -> bool {
    entry.name@ == name && entry.value == ParameterValue::Unsigned(value)
}

pub fn text_field(name: &str, value: &str) -> (entry: Parameter)
    ensures
        text_entry(entry, name@, value@),
{
    Parameter { name: text::copied(name), value: ParameterValue::Text(text::copied(value)) }
}

pub fn flag_field(name: &str, value: bool) -> (entry: Parameter)
    ensures
        flag_entry(entry, name@, value),
{
    Parameter { name: text::copied(name), value: ParameterValue::Bool(value) }
}

pub fn number_field(name: &str, value: u64) -> (entry: Parameter)
    ensures
        number_entry(entry, name@, value),
{
    Parameter { name: text::copied(name), value: ParameterValue::Unsigned(value) }
}

// ---------------------------------------------------------------------------
// Laws

/// A parameter is the first that carries its name; one that none carries is not given.
pub proof fn parameters_are_found_by_name(parameters: Seq<Parameter>, name: Seq<char>, i: int)
    requires
        0 <= i < parameters.len(),
        forall|k: int| 0 <= k < i ==> (#[trigger] parameters[k]).name@ != name,
    ensures
        parameters[i].name@ == name ==> parameter(parameters, name) == Some(parameters[i].value),
        (forall|k: int| 0 <= k < parameters.len() ==> (#[trigger] parameters[k]).name@ != name)
            ==> parameter(parameters, name) is None,
        parameter(parameters, name) matches Some(value) ==> {
            &&& text_parameter(parameters, name) is Some == value is Text
            &&& unsigned_parameter(parameters, name) is Some == value is Unsigned
            &&& flag_parameter(parameters, name) is Some == value is Bool
            &&& (value matches ParameterValue::Text(word) ==> text_parameter(parameters, name)
                == Some(word@))
            &&& (value matches ParameterValue::Unsigned(n) ==> unsigned_parameter(parameters, name)
                == Some(n))
            &&& (value matches ParameterValue::Bool(b) ==> flag_parameter(parameters, name) == Some(
                b,
            ))
        },
        parameter(parameters, name) is None ==> text_parameter(parameters, name) is None
            && unsigned_parameter(parameters, name) is None && flag_parameter(parameters, name)
            is None,
{
    if parameters[i].name@ == name {
        lemma_parameter(parameters, name, i);
    }
    if forall|k: int| 0 <= k < parameters.len() ==> (#[trigger] parameters[k]).name@ != name {
        lemma_parameter(parameters, name, parameters.len() as int);
    }
}

} // verus!
