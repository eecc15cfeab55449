//! The JSON-shaped hypermedia document tree.
//!
//! A document is an object (an ordered list of string-keyed entries), an
//! array, or a scalar.  The reserved object key `"#"` carries metadata; it is
//! invisible to formatting and path resolution except for the control check
//! that the formatter makes.  Non-integer numbers are kept as their canonical
//! decimal text, so the tree itself stays plain data.

use vstd::prelude::*;
use vstd::string::StringExecFns;

use crate::nums::dec_int;
use crate::text::str_eq;

verus! {

#[derive(Debug, PartialEq)]
pub enum HyperValue {
    Null,
    Bool(bool),
    Int(i64),
    /// A non-integer number, as the canonical decimal text it renders to.
    Num(String),
    Text(String),
    Array(Vec<HyperValue>),
    Object(Vec<(String, HyperValue)>),
}

/// The value stored under `key`, taking the first entry where keys repeat.
pub open spec fn obj_lookup(entries: Seq<(String, HyperValue)>, key: Seq<char>) -> Option<
    HyperValue,
>
    decreases entries.len(),
{
    if entries.len() == 0 {
        None
    } else if entries[0].0@ == key {
        Some(entries[0].1)
    } else {
        obj_lookup(entries.drop_first(), key)
    }
}

/// Looks a key up in an object's entry list, first match winning.
pub fn obj_get<'a>(entries: &'a Vec<(String, HyperValue)>, key: &str) -> (r: Option<
    &'a HyperValue,
>)
    ensures
        match r {
            Some(v) => obj_lookup(entries@, key@) == Some(*v),
            None => obj_lookup(entries@, key@) is None,
        },
{
    let mut i: usize = 0;
    proof {
        assert(entries@.skip(0) =~= entries@);
    }
    while i < entries.len()
        invariant
            i <= entries@.len(),
            obj_lookup(entries@, key@) == obj_lookup(entries@.skip(i as int), key@),
        decreases entries@.len() - i,
    {
        proof {
            assert(entries@.skip(i as int)[0] == entries@[i as int]);
            assert(entries@.skip(i as int).drop_first() =~= entries@.skip(i + 1));
        }
        if str_eq(entries[i].0.as_str(), key) {
            return Some(&entries[i].1);
        }
        i += 1;
    }
    proof {
        assert(entries@.skip(entries@.len() as int).len() == 0);
    }
    None
}

/// The text a scalar leaf renders to.
pub open spec fn scalar_text(v: HyperValue) -> Seq<char> {
    match v {
        HyperValue::Null => "null"@,
        HyperValue::Bool(b) => if b {
            "true"@
        } else {
            "false"@
        },
        HyperValue::Int(i) => dec_int(i as int),
        HyperValue::Num(t) => t@,
        HyperValue::Text(t) => t@,
        HyperValue::Array(_) => Seq::empty(),
        HyperValue::Object(_) => Seq::empty(),
    }
}

/// Appends the text of a scalar leaf to `out`.
pub fn push_scalar_text(out: &mut String, v: &HyperValue)
    requires
        !(*v matches HyperValue::Array(_)),
        !(*v matches HyperValue::Object(_)),
    ensures
        final(out)@ == old(out)@ + scalar_text(*v),
{
    match v {
        HyperValue::Null => {
            out.append("null");
        },
        HyperValue::Bool(b) => {
            if *b {
                out.append("true");
            } else {
                out.append("false");
            }
        },
        HyperValue::Int(i) => {
            let t = crate::nums::i64_to_string(*i);
            out.append(t.as_str());
        },
        HyperValue::Num(t) => {
            out.append(t.as_str());
        },
        HyperValue::Text(t) => {
            out.append(t.as_str());
        },
        HyperValue::Array(_) => {
            proof {
                assert(false);
            }
        },
        HyperValue::Object(_) => {
            proof {
                assert(false);
            }
        },
    }
}

} // verus!
