//! The tool calls that the parsers hand back.
use vstd::prelude::*;

verus! {

broadcast use vstd::string::group_string_axioms;

/// The kind of a tool call.
#[derive(Clone, Copy, Debug, PartialEq, Eq, Structural)]
pub enum ToolCallType {
    /// A call of a function.
    Function,
}

/// The function that a tool call names, with its arguments as JSON text.
#[derive(Clone, Debug)]
pub struct CalledFunction {
    /// The function's name.
    pub name: String,
    /// The arguments, a JSON object, as text.
    pub arguments: String,
}

/// One tool call found in a model's output.
#[derive(Clone, Debug)]
pub struct ToolCallResponse {
    /// A fresh identifier of the call (`call-` and a random UUID).
    pub id: String,
    /// The kind of the call.
    pub tp: ToolCallType,
    /// The function called.
    pub function: CalledFunction,
}

/// A tool that the request offered to the model.
#[derive(Clone, Debug)]
pub struct ToolDefinition {
    /// The tool's name.
    pub name: String,
    /// The JSON schema of its parameters, as text, if it has one.
    pub parameters: Option<String>,
}

/// Why a message could not be parsed.
#[derive(Clone, Debug)]
pub struct ToolCallParseError {
    /// What was wrong.
    pub message: String,
}

impl ToolCallResponse {
    /// The call as (function name, arguments text).
    pub open spec fn call_view(self) -> (Seq<char>, Seq<char>) {
        (self.function.name@, self.function.arguments@)
    }
}

/// `c` is a lower-case hexadecimal digit.
pub open spec fn is_lower_hex(c: char) -> bool {
    ('0' <= c && c <= '9') || ('a' <= c && c <= 'f')
}

/// `u` is the hyphenated lower-case text of a version-4 UUID:
/// `xxxxxxxx-xxxx-4xxx-Nxxx-xxxxxxxxxxxx` with `N` one of `8`, `9`, `a`, `b`.
pub open spec fn is_uuid_v4_text(u: Seq<char>) -> bool {
    &&& u.len() == 36
    &&& forall|i: int|
        0 <= i < 36 ==> if i == 8 || i == 13 || i == 18 || i == 23 {
            #[trigger] u[i] == '-'
        } else {
            is_lower_hex(u[i])
        }
    &&& u[14] == '4'
    &&& (u[19] == '8' || u[19] == '9' || u[19] == 'a' || u[19] == 'b')
}

/// `id` is a call id of this library: `call-` followed by the text of a
/// version-4 UUID.
pub open spec fn is_call_id(id: Seq<char>) -> bool {
    &&& id.len() == 41
    &&& id.take(5) == "call-"@
    &&& is_uuid_v4_text(id.skip(5))
}

/// A call made by this library: its id is a call id, and it calls a
/// function.
pub open spec fn has_call_form(c: ToolCallResponse) -> bool {
    &&& is_call_id(c.id@)
    &&& c.tp == ToolCallType::Function
}

/// Every call of the list has the form of [`has_call_form`].
pub open spec fn all_have_call_form(calls: Seq<ToolCallResponse>) -> bool {
    forall|i: int| 0 <= i < calls.len() ==> #[trigger] has_call_form(calls[i])
}

/// The calls of a list as (function name, arguments text) pairs.
pub open spec fn calls_view(calls: Seq<ToolCallResponse>) -> Seq<(Seq<char>, Seq<char>)> {
    calls.map_values(|c: ToolCallResponse| c.call_view())
}

/// A random version-4 UUID, in its hyphenated text form
/// (`uuid::Uuid::new_v4`, formatted by its `Display`).
///
/// Claimed of it: the text is 36 characters, lower-case hex digits with `-`
/// at 8, 13, 18 and 23 (`Display` writes `format_hyphenated` with lower-case
/// digits), the version digit at 14 is `4` and the variant digit at 19 is
/// one of `8`, `9`, `a`, `b` (`new_v4` masks in version 4 and the RFC 4122
/// variant). Which UUID it is is left open: it is random.
#[verifier::external_body]
fn random_uuid() -> (r: String)
    ensures
        is_uuid_v4_text(r@),
{
    uuid::Uuid::new_v4().to_string()
}

/// A fresh call identifier: `call-` followed by a random UUID.
pub fn new_call_id() -> (r: String)
    ensures
        is_call_id(r@),
{
    let mut id = "call-".to_string();
    let u = random_uuid();
    id.append(u.as_str());
    proof {
        reveal_strlit("call-");
        assert(id@.take(5) =~= "call-"@);
        assert(id@.skip(5) =~= u@);
    }
    id
}

/// A tool call of `name` with `arguments`, under a fresh identifier.
pub fn make_call(name: String, arguments: String) -> (r: ToolCallResponse)
    ensures
        r.function.name@ == name@,
        r.function.arguments@ == arguments@,
        has_call_form(r),
{
    ToolCallResponse {
        id: new_call_id(),
        tp: ToolCallType::Function,
        function: CalledFunction { name, arguments },
    }
}

} // verus!
