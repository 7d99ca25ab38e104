//! Tool-name plumbing and tool-output display helpers.

use vstd::prelude::*;
use vstd::string::*;
use vstd::utf8::*;
use crate::utils::json::{
    json_accepted, json_is_object, object_get_string, object_to_pretty, parse_json_object,
    pretty_of, string_member_of,
};

verus! {

/// Whether `i` is the position of the first `"__"` in `s`.
pub open spec fn sep_at(s: Seq<char>, i: int) -> bool {
    &&& 0 <= i
    &&& i + 2 <= s.len()
    &&& s[i] == '_' && s[i + 1] == '_'
    &&& forall|j: int| 0 <= j < i ==> !((#[trigger] s[j]) == '_' && s[j + 1] == '_')
}

/// Whether `s` holds a `"__"` separator at all.
pub open spec fn has_sep(s: Seq<char>) -> bool {
    exists|i: int| sep_at(s, i)
}

/// The position of the first `"__"` in `s`.
pub open spec fn sep_pos(s: Seq<char>) -> int
    recommends
        has_sep(s),
{
    choose|i: int| sep_at(s, i)
}

/// A position holding the first `"__"` is the position the spec names.
proof fn lemma_sep_at(s: Seq<char>, i: int)
    requires
        sep_at(s, i),
    ensures
        has_sep(s),
        sep_pos(s) == i,
{
    assert(has_sep(s));
    let k = sep_pos(s);
    assert(sep_at(s, k));
    if k < i {
        assert(s[k] == '_' && s[k + 1] == '_');
        assert(false);
    }
    if k > i {
        assert(s[i] == '_' && s[i + 1] == '_');
        assert(false);
    }
}

/// Finds the first `"__"` in `s`, as a character index.
fn find_sep(s: &str) -> (r: Option<usize>)
    ensures
        r matches Some(i) ==> sep_at(s@, i as int),
        r is None ==> !has_sep(s@),
{
    let len = s.unicode_len();
    if len < 2 {
        return None;
    }
    let mut i: usize = 0;
    while i + 1 < len
        invariant
            i + 1 <= len,
            len == s@.len(),
            len >= 2,
            forall|j: int| 0 <= j < i ==> !((#[trigger] s@[j]) == '_' && s@[j + 1] == '_'),
        decreases len - i,
    {
        if s.get_char(i) == '_' && s.get_char(i + 1) == '_' {
            return Some(i);
        }
        i += 1;
    }
    None
}

/// Parses a namespaced tool name into its server id and tool name, split on
/// the first `"__"`: `"filesystem__read_file"` parses to `("filesystem",
/// "read_file")`. A name without the separator is rejected, and the error
/// says so.
pub fn parse_namespaced_tool_name(namespaced_name: &str) -> (r: Result<(String, String), String>)
    ensures
        has_sep(namespaced_name@) ==> (r matches Ok(p) && p.0@ == namespaced_name@.take(
            sep_pos(namespaced_name@),
        ) && p.1@ == namespaced_name@.skip(sep_pos(namespaced_name@) + 2)),
        !has_sep(namespaced_name@) ==> (r matches Err(m) && m@
            == "Invalid namespaced tool name: '"@ + namespaced_name@
            + "'. Expected format 'server_id__tool_name'"@),
{
    match find_sep(namespaced_name) {
        Some(i) => {
            proof {
                lemma_sep_at(namespaced_name@, i as int);
            }
            let len = namespaced_name.unicode_len();
            let server = namespaced_name.substring_char(0, i).to_owned();
            let tool = namespaced_name.substring_char(i + 2, len).to_owned();
            Ok((server, tool))
        },
        None => {
            let mut m = String::new();
            m.append("Invalid namespaced tool name: '");
            m.append(namespaced_name);
            m.append("'. Expected format 'server_id__tool_name'");
            proof {
                assert(m@ =~= "Invalid namespaced tool name: '"@ + namespaced_name@
                    + "'. Expected format 'server_id__tool_name'"@);
            }
            Err(m)
        },
    }
}

/// Converts a namespaced tool name to a display-friendly form:
/// `"filesystem__read_file"` becomes `"filesystem: read_file"`; a name
/// without the separator is handed back unchanged.
pub fn display_name_from_namespaced(namespaced_name: &str) -> (r: String)
    ensures
        has_sep(namespaced_name@) ==> r@ == namespaced_name@.take(sep_pos(namespaced_name@))
            + ": "@ + namespaced_name@.skip(sep_pos(namespaced_name@) + 2),
        !has_sep(namespaced_name@) ==> r@ == namespaced_name@,
{
    match parse_namespaced_tool_name(namespaced_name) {
        Ok((server, tool)) => {
            let mut m = server;
            m.append(": ");
            m.append(tool.as_str());
            m
        },
        Err(_) => namespaced_name.to_owned(),
    }
}

/// The widest byte length not beyond `limit` at which `bytes` can be cut on
/// a character boundary.
pub open spec fn cut_point(bytes: Seq<u8>, limit: int) -> int
    decreases limit,
{
    if limit <= 0 {
        0
    } else if is_char_boundary(bytes, limit) {
        limit
    } else {
        cut_point(bytes, limit - 1)
    }
}

/// What truncating a string for display yields: the text itself when it is
/// at most 100 bytes long, else its widest character-boundary cut within 100
/// bytes with `"..."` appended.
pub open spec fn spec_truncated(s: Seq<char>) -> Seq<char> {
    let bytes = encode_utf8(s);
    if bytes.len() <= 100 {
        s
    } else {
        decode_utf8(bytes.take(cut_point(bytes, 100))) + "..."@
    }
}

/// Truncates `s` for display: at most 100 bytes of it, cut on a character
/// boundary, with `"..."` appended when anything was cut.
pub fn truncate_for_display(s: &str) -> (r: String)
    ensures
        r@ == spec_truncated(s@),
{
    broadcast use encode_utf8_valid_utf8, vstd::slice::group_slice_axioms;

    let blen = s.as_bytes().len();
    if blen <= 100 {
        return s.to_owned();
    }
    let mut b: usize = 100;
    while !s.is_char_boundary(b)
        invariant
            0 <= b <= 100,
            blen == s.spec_bytes().len(),
            blen > 100,
            cut_point(s.spec_bytes(), 100) == cut_point(s.spec_bytes(), b as int),
        decreases b,
    {
        proof {
            encode_utf8_valid_utf8(s@);
            if b == 0 {
                assert(is_char_boundary(encode_utf8(s@), 0));
                assert(false);
            }
        }
        b -= 1;
    }
    let (head, _tail) = s.split_at(b);
    let mut r = head.to_owned();
    r.append("...");
    proof {
        encode_utf8_decode_utf8(head@);
        assert(encode_utf8(head@) =~= s.spec_bytes().take(b as int));
    }
    r
}

/// What a tool-output summary is: for a JSON object, its `summary` string
/// member verbatim when it holds one, else its truncated pretty print (the
/// truncated raw content when pretty-printing failed); for anything else,
/// the truncated raw content.
pub open spec fn spec_summary(content: Seq<char>) -> Seq<char> {
    if json_is_object(content) {
        match string_member_of(content, "summary"@) {
            Some(t) => t,
            None => match pretty_of(content) {
                Some(p) => spec_truncated(p),
                None => spec_truncated(content),
            },
        }
    } else {
        spec_truncated(content)
    }
}

/// Creates a formatted summary of tool output for display: a JSON object's
/// `summary` string member when there is one, else a truncated pretty print
/// of the object, else the truncated content itself.
pub fn create_tool_output_summary(_tool_name: &str, content: &str) -> (r: String)
    ensures
        r@ == spec_summary(content@),
{
    match parse_json_object(content) {
        Ok(map) => {
            match object_get_string(&map, "summary") {
                Some(text) => text,
                None => {
                    match object_to_pretty(&map) {
                        Some(pretty) => truncate_for_display(pretty.as_str()),
                        None => truncate_for_display(content),
                    }
                },
            }
        },
        Err(_) => truncate_for_display(content),
    }
}

/// Parses tool arguments from a JSON string into an argument object; text
/// that is not JSON, or whose JSON is not an object, is rejected with a
/// message saying which.
pub fn parse_tool_arguments(arguments: &str) -> (r: Result<
    serde_json::Map<String, serde_json::Value>,
    String,
>)
    ensures
        r is Ok <==> json_is_object(arguments@),
        !json_accepted(arguments@) ==> (r matches Err(m) && exists|t: Seq<char>|
            m@ == "Failed to parse arguments: "@ + t),
        (json_accepted(arguments@) && !json_is_object(arguments@)) ==> (r matches Err(m) && m@
            == "Arguments must be a JSON object"@),
{
    match parse_json_object(arguments) {
        Ok(map) => Ok(map),
        Err(Some(e)) => {
            let mut m = String::from_str("Failed to parse arguments: ");
            m.append(e.as_str());
            proof {
                assert(m@ == "Failed to parse arguments: "@ + e@);
            }
            Err(m)
        },
        Err(None) => Err(String::from_str("Arguments must be a JSON object")),
    }
}

} // verus!
