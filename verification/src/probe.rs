//! The JSON answers of an SNI probe, as the Android app reads them.

use vstd::prelude::*;
use vstd::string::StringExecFns;
use crate::text::{dec_chars, push_decimal};

verus! {

/// `s` with `\` and `"` escaped by a backslash.
pub open spec fn json_escape_spec(s: Seq<char>) -> Seq<char>
    decreases s.len(),
{
    if s.len() == 0 {
        Seq::empty()
    } else {
        let c = s.last();
        json_escape_spec(s.drop_last()) + if c == '\\' || c == '"' {
            seq!['\\', c]
        } else {
            seq![c]
        }
    }
}

/// Escapes backslashes and double quotes for a JSON string.
pub fn json_escape(s: &str) -> (r: String)
    ensures
        r@ == json_escape_spec(s@),
{
    let cs = crate::text::chars_of(s);
    let mut r = String::new();
    let mut i: usize = 0;
    while i < cs.len()
        invariant
            i <= cs@.len(),
            r@ == json_escape_spec(cs@.take(i as int)),
        decreases cs@.len() - i,
    {
        let c = cs[i];
        if c == '\\' || c == '"' {
            crate::bindings::push_char(&mut r, '\\');
        }
        crate::bindings::push_char(&mut r, c);
        assert(cs@.take(i + 1).drop_last() =~= cs@.take(i as int));
        i = i + 1;
    }
    assert(cs@.take(i as int) =~= cs@);
    r
}

/// The answer when the IP or the SNI to probe is empty, or `None` when both
/// are given.
pub fn probe_input_error(ip: &str, sni: &str) -> (r: Option<String>)
    ensures
        (ip@.len() == 0 || sni@.len() == 0) ==> (r matches Some(s) && s@ == "{\"ok\":false,\"error\":\"empty ip or sni\"}"@),
        (ip@.len() != 0 && sni@.len() != 0) ==> r is None,
{
    if ip.is_empty() || sni.is_empty() {
        Some(String::from_str("{\"ok\":false,\"error\":\"empty ip or sni\"}"))
    } else {
        None
    }
}

/// The answer for a probe's outcome: its latency, or its error message.
pub fn probe_reply(outcome: Result<u64, String>) -> (r: String)
    ensures
        match outcome {
            Ok(ms) => r@ == "{\"ok\":true,\"latencyMs\":"@ + dec_chars(ms as nat) + "}"@,
            Err(e) => r@ == "{\"ok\":false,\"error\":\""@ + json_escape_spec(e@) + "\"}"@,
        },
{
    match outcome {
        Ok(ms) => {
            let mut r = String::from_str("{\"ok\":true,\"latencyMs\":");
            push_decimal(&mut r, ms);
            r.append("}");
            r
        },
        Err(e) => {
            let mut r = String::from_str("{\"ok\":false,\"error\":\"");
            let esc = json_escape(e.as_str());
            r.append(esc.as_str());
            r.append("\"}");
            r
        },
    }
}

/// `mmdf-client <version>`, as `--version` prints it.
pub fn version_line(version: &str) -> (r: String)
    ensures
        r@ == "mmdf-client "@ + version@,
{
    let mut r = String::from_str("mmdf-client ");
    r.append(version);
    r
}

} // verus!
