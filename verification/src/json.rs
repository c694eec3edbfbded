//! A JSON document as a plain tree of library values.
//!
//! Parsing text into the tree is delegated to serde_json behind a trusted
//! boundary; everything that walks or reads the tree is verified here.

use vstd::prelude::*;

verus! {

/// A parsed JSON value. Numbers keep the decimal rendering the parser gave
/// them; object fields keep the order the parser's map yields them in
/// (sorted by name under serde_json's default map).
pub enum JsonNode {
    Null,
    Bool(bool),
    NumText(String),
    Str(String),
    Arr(Vec<JsonNode>),
    Obj(Vec<(String, JsonNode)>),
}

/// The tree that parsing a given text yields, if the text is valid JSON.
/// The result depends on the text alone.
pub uninterp spec fn json_doc_of(text: Seq<char>) -> Option<JsonNode>;

#[verifier::external_type_specification]
#[verifier::external_body]
pub struct ExValue(serde_json::Value);

/// Relies on serde_json::from_str::<serde_json::Value>: it accepts exactly
/// the valid JSON documents, and the parsed tree is a function of the text
/// alone, converted one variant at a time by `value_tree`.
#[verifier::external_body]
pub fn parse_json(text: &str) -> (r: Option<JsonNode>)
    ensures
        r == json_doc_of(text@),
{
    match serde_json::from_str::<serde_json::Value>(text) {
        Ok(v) => Some(value_tree(v)),
        Err(_) => None,
    }
}

/// Relies on serde_json::Value only as data: each variant is moved into the
/// library's tree one for one; numbers keep serde_json's decimal rendering.
#[verifier::external_body]
fn value_tree(v: serde_json::Value) -> JsonNode {
    match v {
        serde_json::Value::Null => JsonNode::Null,
        serde_json::Value::Bool(b) => JsonNode::Bool(b),
        serde_json::Value::Number(n) => JsonNode::NumText(n.to_string()),
        serde_json::Value::String(s) => JsonNode::Str(s),
        serde_json::Value::Array(a) => JsonNode::Arr(a.into_iter().map(value_tree).collect()),
        serde_json::Value::Object(o) => JsonNode::Obj(
            o.into_iter().map(|p| (p.0, value_tree(p.1))).collect(),
        ),
    }
}

/// The value of the first field of the given name, if any.
pub open spec fn obj_get(fields: Seq<(String, JsonNode)>, key: Seq<char>) -> Option<JsonNode>
    decreases fields.len(),
{
    if fields.len() == 0 {
        None
    } else if fields[0].0@ == key {
        Some(fields[0].1)
    } else {
        obj_get(fields.drop_first(), key)
    }
}

pub proof fn lemma_obj_get(fields: Seq<(String, JsonNode)>, key: Seq<char>)
    ensures
        match obj_get(fields, key) {
            Some(v) => exists|j: int|
                0 <= j < fields.len() && (#[trigger] fields[j]).0@ == key && fields[j].1 == v
                    && forall|k: int| 0 <= k < j ==> fields[k].0@ != key,
            None => forall|k: int| 0 <= k < fields.len() ==> (#[trigger] fields[k]).0@ != key,
        },
    decreases fields.len(),
{
    if fields.len() > 0 && fields[0].0@ != key {
        lemma_obj_get(fields.drop_first(), key);
        assert(forall|k: int|
            1 <= k < fields.len() ==> #[trigger] fields[k] == fields.drop_first()[k - 1]);
        match obj_get(fields.drop_first(), key) {
            Some(v) => {
                let j = choose|j: int|
                    0 <= j < fields.drop_first().len() && (#[trigger] fields.drop_first()[j]).0@
                        == key && fields.drop_first()[j].1 == v && forall|k: int|
                        0 <= k < j ==> fields.drop_first()[k].0@ != key;
                assert(fields[j + 1].0@ == key && fields[j + 1].1 == v);
                assert(forall|k: int| 0 <= k < j + 1 ==> fields[k].0@ != key);
            },
            None => {},
        }
    }
}

/// The node a dotted path names, walking object fields only, from segment
/// `i` on.
pub open spec fn lookup_spec(n: JsonNode, segs: Seq<Seq<char>>, i: int) -> Option<JsonNode>
    decreases segs.len() - i,
{
    if i < 0 || i >= segs.len() {
        Some(n)
    } else {
        match n {
            JsonNode::Obj(fields) => match obj_get(fields@, segs[i]) {
                Some(c) => lookup_spec(c, segs, i + 1),
                None => None,
            },
            _ => None,
        }
    }
}

/// The first field of the given name of an object node.
fn obj_get_exec<'a>(fields: &'a Vec<(String, JsonNode)>, key: &Vec<char>) -> (r: Option<
    &'a JsonNode,
>)
    ensures
        match r {
            Some(v) => obj_get(fields@, key@) == Some(*v),
            None => obj_get(fields@, key@) is None,
        },
{
    let n = fields.len();
    let mut i: usize = 0;
    while i < n
        invariant
            0 <= i <= n == fields@.len(),
            forall|k: int| 0 <= k < i ==> (#[trigger] fields@[k]).0@ != key@,
        decreases n - i,
    {
        let kv = crate::text::str_chars(fields[i].0.as_str());
        let mut eq = kv.len() == key.len();
        if eq {
            let m = kv.len();
            let mut c: usize = 0;
            while c < m
                invariant
                    0 <= c <= m == kv@.len() == key@.len(),
                    eq == (forall|t: int| 0 <= t < c ==> kv@[t] == key@[t]),
                decreases m - c,
            {
                if kv[c] != key[c] {
                    eq = false;
                    c = m;
                } else {
                    c = c + 1;
                }
            }
        }
        if eq {
            proof {
                assert(kv@ =~= key@);
                assert(fields@[i as int].0@ == key@);
                lemma_obj_get(fields@, key@);
            }
            return Some(&fields[i].1);
        }
        i = i + 1;
    }
    proof {
        lemma_obj_get(fields@, key@);
    }
    None
}

/// The first field of the given name of an object's field list.
pub fn obj_field<'a>(fields: &'a Vec<(String, JsonNode)>, name: &str) -> (r: Option<&'a JsonNode>)
    ensures
        match r {
            Some(v) => obj_get(fields@, name@) == Some(*v),
            None => obj_get(fields@, name@) is None,
        },
{
    let key = crate::text::str_chars(name);
    obj_get_exec(fields, &key)
}

/// Walk a dotted path through the tree, as `lookup_spec` says.
pub fn lookup<'a>(n: &'a JsonNode, segs: &Vec<String>) -> (r: Option<&'a JsonNode>)
    ensures
        match r {
            Some(v) => lookup_spec(*n, segs@.map_values(|s: String| s@), 0) == Some(*v),
            None => lookup_spec(*n, segs@.map_values(|s: String| s@), 0) is None,
        },
{
    let ghost sv = segs@.map_values(|s: String| s@);
    let count = segs.len();
    let mut cur: &JsonNode = n;
    let mut i: usize = 0;
    while i < count
        invariant
            0 <= i <= count == segs@.len(),
            sv == segs@.map_values(|s: String| s@),
            lookup_spec(*n, sv, 0) == lookup_spec(*cur, sv, i as int),
        decreases count - i,
    {
        let key = crate::text::str_chars(segs[i].as_str());
        proof {
            assert(sv[i as int] == segs@[i as int]@);
        }
        match cur {
            JsonNode::Obj(fields) => {
                match obj_get_exec(fields, &key) {
                    Some(c) => {
                        cur = c;
                    },
                    None => {
                        return None;
                    },
                }
            },
            _ => {
                return None;
            },
        }
        i = i + 1;
    }
    Some(cur)
}

/// A hexadecimal digit character.
pub open spec fn hex_digit(x: int) -> char {
    if x < 10 {
        ((48 + x) as u8) as char
    } else {
        ((87 + x) as u8) as char
    }
}

/// One character, escaped for a JSON string: quotes, backslashes, the
/// named control characters, and the remaining control characters in
/// `\u00XX` form.
pub open spec fn esc_char(c: char) -> Seq<char> {
    if c == '"' {
        seq!['\\', '"']
    } else if c == '\\' {
        seq!['\\', '\\']
    } else if c == '\n' {
        seq!['\\', 'n']
    } else if c == '\r' {
        seq!['\\', 'r']
    } else if c == '\t' {
        seq!['\\', 't']
    } else if (c as u32) < 32 {
        seq!['\\', 'u', '0', '0', hex_digit((c as u32) as int / 16), hex_digit((c as u32) as int % 16)]
    } else {
        seq![c]
    }
}

/// A string's characters, escaped, from index `i` on.
pub open spec fn esc_from(s: Seq<char>, i: int) -> Seq<char>
    decreases s.len() - i,
{
    if i < 0 || i >= s.len() {
        Seq::empty()
    } else {
        esc_char(s[i]) + esc_from(s, i + 1)
    }
}

/// A whole string, escaped.
pub open spec fn esc(s: Seq<char>) -> Seq<char> {
    esc_from(s, 0)
}

/// Append the escaped form of `s`.
pub fn push_escaped(out: Vec<char>, s: &str) -> (r: Vec<char>)
    ensures
        r@ == out@ + esc(s@),
{
    let sv = crate::text::str_chars(s);
    let n = sv.len();
    let ghost base = out@;
    let mut out = out;
    let mut i: usize = 0;
    proof {
        assert(out@ + esc_from(sv@, 0) =~= base + esc(s@));
    }
    while i < n
        invariant
            0 <= i <= n == sv@.len(),
            sv@ == s@,
            out@ + esc_from(sv@, i as int) == base + esc(s@),
        decreases n - i,
    {
        let ghost pre = out@;
        let c = sv[i];
        if c == '"' {
            out.push('\\');
            out.push('"');
        } else if c == '\\' {
            out.push('\\');
            out.push('\\');
        } else if c == '\n' {
            out.push('\\');
            out.push('n');
        } else if c == '\r' {
            out.push('\\');
            out.push('r');
        } else if c == '\t' {
            out.push('\\');
            out.push('t');
        } else if (c as u32) < 32 {
            out.push('\\');
            out.push('u');
            out.push('0');
            out.push('0');
            let x = c as u32;
            let hi: u8 = (x / 16) as u8;
            let lo: u8 = (x % 16) as u8;
            let hi_c: char = if hi < 10 {
                (48 + hi) as char
            } else {
                (87 + hi) as char
            };
            let lo_c: char = if lo < 10 {
                (48 + lo) as char
            } else {
                (87 + lo) as char
            };
            out.push(hi_c);
            out.push(lo_c);
        } else {
            out.push(c);
        }
        i = i + 1;
        proof {
            assert(out@ =~= pre + esc_char(sv@[i - 1]));
            assert(out@ + esc_from(sv@, i as int) =~= pre + esc_from(sv@, i - 1));
        }
    }
    proof {
        assert(out@ + esc_from(sv@, n as int) =~= out@);
    }
    out
}

/// A quoted, escaped JSON string.
pub open spec fn quoted(s: Seq<char>) -> Seq<char> {
    seq!['"'] + esc(s) + seq!['"']
}

/// The compact JSON text of a tree: literals and number texts verbatim,
/// strings quoted and escaped, containers with their separators and no
/// added whitespace.
pub open spec fn render_spec(n: JsonNode) -> Seq<char>
    decreases n,
{
    match n {
        JsonNode::Null => "null"@,
        JsonNode::Bool(b) => if b {
            "true"@
        } else {
            "false"@
        },
        JsonNode::NumText(t) => t@,
        JsonNode::Str(s) => quoted(s@),
        JsonNode::Arr(items) => seq!['['] + render_items(items@, 0) + seq![']'],
        JsonNode::Obj(fields) => seq!['{'] + render_fields(fields@, 0) + seq!['}'],
    }
}

/// The rendered elements of an array, comma-separated, from index `i` on.
pub open spec fn render_items(items: Seq<JsonNode>, i: int) -> Seq<char>
    decreases items, items.len() - i,
{
    if i < 0 || i >= items.len() {
        Seq::empty()
    } else {
        render_spec(items[i]) + (if i + 1 < items.len() {
            seq![',']
        } else {
            Seq::empty()
        }) + render_items(items, i + 1)
    }
}

/// The rendered fields of an object, comma-separated, from index `i` on.
pub open spec fn render_fields(fields: Seq<(String, JsonNode)>, i: int) -> Seq<char>
    decreases fields, fields.len() - i,
{
    if i < 0 || i >= fields.len() {
        Seq::empty()
    } else {
        quoted(fields[i].0@) + seq![':'] + render_spec(fields[i].1) + (if i + 1 < fields.len() {
            seq![',']
        } else {
            Seq::empty()
        }) + render_fields(fields, i + 1)
    }
}

/// Append the compact JSON text of a tree.
#[verifier::rlimit(100)]
fn push_rendered(n: &JsonNode, out: Vec<char>) -> (r: Vec<char>)
    ensures
        r@ == out@ + render_spec(*n),
    decreases *n,
{
    let ghost base = out@;
    let mut out = out;
    match n {
        JsonNode::Null => {
            let p = crate::text::str_chars("null");
            out = crate::http::types::append_chars(out, &p);
        },
        JsonNode::Bool(b) => {
            let p = if *b {
                crate::text::str_chars("true")
            } else {
                crate::text::str_chars("false")
            };
            out = crate::http::types::append_chars(out, &p);
        },
        JsonNode::NumText(t) => {
            let p = crate::text::str_chars(t.as_str());
            out = crate::http::types::append_chars(out, &p);
        },
        JsonNode::Str(s) => {
            out.push('"');
            out = push_escaped(out, s.as_str());
            out.push('"');
            proof {
                assert(out@ =~= base + render_spec(*n));
            }
        },
        JsonNode::Arr(items) => {
            out.push('[');
            let m = items.len();
            let mut i: usize = 0;
            proof {
                assert(out@ + render_items(items@, 0) =~= base + seq!['['] + render_items(
                    items@,
                    0,
                ));
            }
            #[verifier::loop_isolation(false)]
            while i < m
                invariant
                    0 <= i <= m == items@.len(),
                    out@ + render_items(items@, i as int) == base + seq!['['] + render_items(
                        items@,
                        0,
                    ),
                decreases m - i,
            {
                proof {
                    vstd::std_specs::vec::axiom_vec_index_decreases(*items, i as int);
                    assert(*n == JsonNode::Arr(*items));
                    assert(decreases_to!(*n => *items));
                    assert(decreases_to!(*items => items@[i as int]));
                    assert(decreases_to!(*n => items@[i as int]));
                }
                let ghost pre = out@;
                out = push_rendered(&items[i], out);
                if i + 1 < m {
                    out.push(',');
                }
                i = i + 1;
                proof {
                    assert(out@ + render_items(items@, i as int) =~= pre + render_items(
                        items@,
                        i - 1,
                    ));
                }
            }
            out.push(']');
            proof {
                assert(render_items(items@, m as int) =~= Seq::<char>::empty());
                assert(out@ =~= base + render_spec(*n));
            }
        },
        JsonNode::Obj(fields) => {
            out.push('{');
            let m = fields.len();
            let mut i: usize = 0;
            proof {
                assert(out@ + render_fields(fields@, 0) =~= base + seq!['{'] + render_fields(
                    fields@,
                    0,
                ));
            }
            #[verifier::loop_isolation(false)]
            while i < m
                invariant
                    0 <= i <= m == fields@.len(),
                    out@ + render_fields(fields@, i as int) == base + seq!['{'] + render_fields(
                        fields@,
                        0,
                    ),
                decreases m - i,
            {
                proof {
                    vstd::std_specs::vec::axiom_vec_index_decreases(*fields, i as int);
                    assert(*n == JsonNode::Obj(*fields));
                    assert(decreases_to!(*n => *fields));
                    assert(decreases_to!(*fields => fields@[i as int]));
                    assert(decreases_to!(fields@[i as int] => fields@[i as int].1));
                    assert(decreases_to!(*n => fields@[i as int].1));
                }
                let ghost pre = out@;
                out.push('"');
                out = push_escaped(out, fields[i].0.as_str());
                out.push('"');
                out.push(':');
                out = push_rendered(&fields[i].1, out);
                if i + 1 < m {
                    out.push(',');
                }
                i = i + 1;
                proof {
                    assert(out@ + render_fields(fields@, i as int) =~= pre + render_fields(
                        fields@,
                        i - 1,
                    ));
                }
            }
            out.push('}');
            proof {
                assert(render_fields(fields@, m as int) =~= Seq::<char>::empty());
                assert(out@ =~= base + render_spec(*n));
            }
        },
    }
    out
}

/// The compact JSON text of a tree, as `render_spec` says.
pub fn render_json(n: &JsonNode) -> (r: String)
    ensures
        r@ == render_spec(*n),
{
    let out = push_rendered(n, Vec::new());
    proof {
        assert(out@ =~= render_spec(*n));
    }
    crate::text::chars_string(&out)
}

/// The text a capture stores for a node: strings verbatim, numbers by
/// their rendering, booleans and null by their JSON spelling, and arrays
/// and objects by their whole JSON text.
pub open spec fn node_capture_text(n: JsonNode) -> Seq<char> {
    match n {
        JsonNode::Str(s) => s@,
        JsonNode::NumText(t) => t@,
        JsonNode::Bool(b) => if b {
            "true"@
        } else {
            "false"@
        },
        JsonNode::Null => "null"@,
        JsonNode::Arr(_) => render_spec(n),
        JsonNode::Obj(_) => render_spec(n),
    }
}

/// Print a node as a capture stores it, as `node_capture_text` says.
pub fn node_capture_string(n: &JsonNode) -> (r: String)
    ensures
        r@ == node_capture_text(*n),
{
    match n {
        JsonNode::Str(s) => s.clone(),
        JsonNode::NumText(t) => t.clone(),
        JsonNode::Bool(b) => {
            if *b {
                "true".to_owned()
            } else {
                "false".to_owned()
            }
        },
        JsonNode::Null => "null".to_owned(),
        JsonNode::Arr(_) => render_json(n),
        JsonNode::Obj(_) => render_json(n),
    }
}

} // verus!
