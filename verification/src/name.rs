//! Validity of node and property names, per the devicetree grammar.

use vstd::prelude::*;
use vstd::string::StringSliceAdditionalSpecFns;

verus! {

/// A byte allowed in a property name: ASCII alphanumeric or one of `. , _ + ? # -`.
pub open spec fn is_prop_name_byte(b: u8) -> bool {
    (48 <= b && b <= 57) || (65 <= b && b <= 90) || (97 <= b && b <= 122) || b == 46
        || b == 44 || b == 95 || b == 43 || b == 63 || b == 35 || b == 45
}

/// A byte allowed in a node name: ASCII alphanumeric or one of `. , _ + - @`.
pub open spec fn is_node_name_byte(b: u8) -> bool {
    (48 <= b && b <= 57) || (65 <= b && b <= 90) || (97 <= b && b <= 122) || b == 46
        || b == 44 || b == 95 || b == 43 || b == 45 || b == 64
}

/// How many times byte `b` occurs in `s`.
pub open spec fn count_byte(s: Seq<u8>, b: u8) -> int
    decreases s.len(),
{
    if s.len() == 0 {
        0
    } else {
        count_byte(s.drop_last(), b) + if s.last() == b {
            1int
        } else {
            0int
        }
    }
}

/// A legal property name: every byte allowed by the property-name grammar.
pub open spec fn spec_valid_prop_name(name: Seq<u8>) -> bool {
    forall|i: int| 0 <= i < name.len() ==> is_prop_name_byte(#[trigger] name[i])
}

/// A legal node name: every byte allowed by the node-name grammar, and at
/// most one `@` separating the node name from its unit address.
pub open spec fn spec_valid_node_name(name: Seq<u8>) -> bool {
    &&& forall|i: int| 0 <= i < name.len() ==> is_node_name_byte(#[trigger] name[i])
    &&& count_byte(name, 64) <= 1
}

proof fn lemma_count_byte_take_step(s: Seq<u8>, b: u8, i: int)
    requires
        0 <= i < s.len(),
    ensures
        count_byte(s.take(i + 1), b) == count_byte(s.take(i), b) + if s[i] == b {
            1int
        } else {
            0int
        },
{
    assert(s.take(i + 1).drop_last() =~= s.take(i));
    assert(s.take(i + 1).last() == s[i]);
}

fn prop_name_byte_ok(b: u8) -> (r: bool)
    ensures
        r == is_prop_name_byte(b),
{
    (48 <= b && b <= 57) || (65 <= b && b <= 90) || (97 <= b && b <= 122) || b == 46
        || b == 44 || b == 95 || b == 43 || b == 63 || b == 35 || b == 45
}

fn node_name_byte_ok(b: u8) -> (r: bool)
    ensures
        r == is_node_name_byte(b),
{
    (48 <= b && b <= 57) || (65 <= b && b <= 90) || (97 <= b && b <= 122) || b == 46
        || b == 44 || b == 95 || b == 43 || b == 45 || b == 64
}

/// Verify an FDT property name given as raw bytes.
pub fn is_valid_prop_name_bytes(name: &[u8]) -> (r: bool)
    ensures
        r == spec_valid_prop_name(name@),
{
    let mut i: usize = 0;
    while i < name.len()
        invariant
            i <= name@.len(),
            forall|j: int| 0 <= j < i ==> is_prop_name_byte(#[trigger] name@[j]),
        decreases name@.len() - i,
    {
        if !prop_name_byte_ok(name[i]) {
            return false;
        }
        i = i + 1;
    }
    true
}

/// Verify an FDT node name given as raw bytes.
pub fn is_valid_node_name_bytes(name: &[u8]) -> (r: bool)
    ensures
        r == spec_valid_node_name(name@),
{
    let mut i: usize = 0;
    let mut at_count: usize = 0;
    while i < name.len()
        invariant
            i <= name@.len(),
            at_count <= i,
            forall|j: int| 0 <= j < i ==> is_node_name_byte(#[trigger] name@[j]),
            at_count as int == count_byte(name@.take(i as int), 64),
        decreases name@.len() - i,
    {
        let b = name[i];
        if !node_name_byte_ok(b) {
            return false;
        }
        proof {
            lemma_count_byte_take_step(name@, 64, i as int);
        }
        if b == 64 {
            at_count = at_count + 1;
        }
        i = i + 1;
    }
    proof {
        assert(name@.take(name@.len() as int) =~= name@);
    }
    at_count <= 1
}

/// Verify an FDT property name.
pub fn is_valid_prop_name(name: &str) -> (r: bool)
    ensures
        r == spec_valid_prop_name(name.spec_bytes()),
{
    is_valid_prop_name_bytes(name.as_bytes())
}

/// Verify an FDT node name.
pub fn is_valid_node_name(name: &str) -> (r: bool)
    ensures
        r == spec_valid_node_name(name.spec_bytes()),
{
    is_valid_node_name_bytes(name.as_bytes())
}

} // verus!
