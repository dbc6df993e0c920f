use vstd::prelude::*;

verus! {

/// Whether the peer's reply line is well-formed JSON — what json's `parse`
/// accepts. A function of the line alone; stating it in full would mean
/// writing out the JSON grammar, so it only gets a name.
pub uninterp spec fn reply_wellformed(s: Seq<char>) -> bool;

/// The `"error"` member of a well-formed reply, when the reply is an
/// object carrying one as a string; `None` otherwise. A function of the
/// line alone, named rather than spelled out.
pub uninterp spec fn reply_error_of(s: Seq<char>) -> Option<Seq<char>>;

/// Relies on json's `parse`, its `Index<&str>` on `JsonValue` (anything
/// but an object indexes to JSON null, and so does a missing key), and
/// `JsonValue::as_str` (`Some` exactly for the two string variants):
/// `None` when the line is not well-formed JSON, otherwise the `"error"`
/// string member if the object has one.
#[verifier::external_body]
pub(crate) fn classify_reply(line: &str) -> (r: Option<Option<String>>)
    ensures
        r is Some <==> reply_wellformed(line@),
        r matches Some(e) ==> (match e {
            Some(m) => reply_error_of(line@) == Some(m@),
            None => reply_error_of(line@) is None,
        }),
{
    match json::parse(line) {
        Ok(v) => match v["error"].as_str() {
            Some(m) => Some(Some(m.to_string())),
            None => Some(None),
        },
        Err(_) => None,
    }
}

} // verus!
