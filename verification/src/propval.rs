//! Typed property values and their encoding into raw property bytes.
//!
//! A property value is one of a handful of shapes: empty, a 32- or 64-bit
//! integer, an array of either, a single string, or a list of strings.  The
//! encoding is big-endian for integers; strings are terminated by a zero byte
//! and packed back to back.  A string that itself contains the terminator
//! cannot be encoded and is rejected.

use vstd::prelude::*;

use crate::error::Error;
use crate::util::push_be32;
use crate::util::push_be64;
use crate::util::push_bytes;
use crate::util::spec_be32;
use crate::util::spec_be64;

verus! {

/// A typed FDT property value, before encoding into raw bytes.
#[derive(Debug, Clone)]
pub enum FdtPropval {
    /// An empty property, carrying no payload.
    Null,
    /// A single unsigned 32-bit integer.
    U32(u32),
    /// A single unsigned 64-bit integer.
    U64(u64),
    /// An array of unsigned 32-bit integers, packed back to back.
    U32Array(Vec<u32>),
    /// An array of unsigned 64-bit integers, packed back to back.
    U64Array(Vec<u64>),
    /// A single zero-terminated string.
    Str(String),
    /// A list of strings, each zero-terminated, packed back to back.
    StrList(Vec<String>),
}

/// The UTF-8 bytes of a string value.
pub open spec fn spec_str_value_bytes(s: Seq<char>) -> Seq<u8> {
    vstd::utf8::encode_utf8(s)
}

/// Whether a string value embeds the terminator byte, which the encoding
/// cannot represent.
pub open spec fn str_value_has_nul(s: Seq<char>) -> bool {
    spec_str_value_bytes(s).contains(0u8)
}

/// The encoding of an array of 32-bit integers.
pub open spec fn spec_u32_array_bytes(vs: Seq<u32>) -> Seq<u8>
    decreases vs.len(),
{
    if vs.len() == 0 {
        Seq::empty()
    } else {
        spec_u32_array_bytes(vs.drop_last()) + spec_be32(vs.last())
    }
}

/// The encoding of an array of 64-bit integers.
pub open spec fn spec_u64_array_bytes(vs: Seq<u64>) -> Seq<u8>
    decreases vs.len(),
{
    if vs.len() == 0 {
        Seq::empty()
    } else {
        spec_u64_array_bytes(vs.drop_last()) + spec_be64(vs.last())
    }
}

/// The encoding of a string list: each string zero-terminated, in order.
pub open spec fn spec_str_list_bytes(ss: Seq<Seq<char>>) -> Seq<u8>
    decreases ss.len(),
{
    if ss.len() == 0 {
        Seq::empty()
    } else {
        spec_str_list_bytes(ss.drop_last()) + spec_str_value_bytes(ss.last()) + seq![0u8]
    }
}

/// Whether some string in the list embeds the terminator byte.
pub open spec fn str_list_has_nul(ss: Seq<Seq<char>>) -> bool {
    exists|i: int| 0 <= i < ss.len() && str_value_has_nul(#[trigger] ss[i])
}

/// The first string in the list that embeds the terminator byte.
pub open spec fn spec_first_nul_str(ss: Seq<Seq<char>>) -> Seq<char>
    decreases ss.len(),
{
    if ss.len() == 0 {
        Seq::empty()
    } else if str_value_has_nul(ss[0]) {
        ss[0]
    } else {
        spec_first_nul_str(ss.drop_first())
    }
}

/// Whether the value cannot be encoded because a string embeds the terminator.
pub open spec fn propval_has_nul(v: FdtPropval) -> bool {
    match v {
        FdtPropval::Str(s) => str_value_has_nul(s@),
        FdtPropval::StrList(ss) => str_list_has_nul(ss.deep_view()),
        _ => false,
    }
}

/// The string reported when the value cannot be encoded: the first offender.
pub open spec fn propval_bad_str(v: FdtPropval) -> Seq<char> {
    match v {
        FdtPropval::Str(s) => s@,
        FdtPropval::StrList(ss) => spec_first_nul_str(ss.deep_view()),
        _ => Seq::empty(),
    }
}

/// The byte encoding of a property value, meaningful when no string in it
/// embeds the terminator.
pub open spec fn spec_propval_bytes(v: FdtPropval) -> Seq<u8> {
    match v {
        FdtPropval::Null => Seq::empty(),
        FdtPropval::U32(x) => spec_be32(x),
        FdtPropval::U64(x) => spec_be64(x),
        FdtPropval::U32Array(vs) => spec_u32_array_bytes(vs@),
        FdtPropval::U64Array(vs) => spec_u64_array_bytes(vs@),
        FdtPropval::Str(s) => spec_str_value_bytes(s@) + seq![0u8],
        FdtPropval::StrList(ss) => spec_str_list_bytes(ss.deep_view()),
    }
}

proof fn lemma_first_nul_str_at(ss: Seq<Seq<char>>, i: int)
    requires
        0 <= i < ss.len(),
        forall|j: int| 0 <= j < i ==> !str_value_has_nul(#[trigger] ss[j]),
        str_value_has_nul(ss[i]),
    ensures
        spec_first_nul_str(ss) == ss[i],
    decreases i,
{
    if i > 0 {
        lemma_first_nul_str_at(ss.drop_first(), i - 1);
    }
}

fn bytes_have_nul(b: &[u8]) -> (r: bool)
    ensures
        r == b@.contains(0u8),
{
    let mut i: usize = 0;
    while i < b.len()
        invariant
            i <= b@.len(),
            forall|j: int| 0 <= j < i ==> b@[j] != 0u8,
        decreases b@.len() - i,
    {
        if b[i] == 0 {
            proof {
                assert(b@[i as int] == 0u8);
            }
            return true;
        }
        i = i + 1;
    }
    proof {
        assert(!b@.contains(0u8));
    }
    false
}

/// Encode a typed property value into its raw property bytes, or reject it
/// when a string in it embeds the terminator byte.
#[verifier::loop_isolation(false)]
pub fn propval_to_bytes(value: &FdtPropval) -> (r: Result<Vec<u8>, Error>)
    ensures
        match r {
            Ok(bytes) => !propval_has_nul(*value) && bytes@ == spec_propval_bytes(*value),
            Err(e) => propval_has_nul(*value) && (e matches Error::InvalidString(s) && s@
                == propval_bad_str(*value)),
        },
{
    match value {
        FdtPropval::Null => Ok(Vec::new()),
        FdtPropval::U32(x) => {
            let mut out: Vec<u8> = Vec::new();
            push_be32(&mut out, *x);
            Ok(out)
        },
        FdtPropval::U64(x) => {
            let mut out: Vec<u8> = Vec::new();
            push_be64(&mut out, *x);
            Ok(out)
        },
        FdtPropval::U32Array(vs) => {
            let mut out: Vec<u8> = Vec::new();
            let mut i: usize = 0;
            while i < vs.len()
                invariant
                    i <= vs@.len(),
                    out@ == spec_u32_array_bytes(vs@.take(i as int)),
                decreases vs@.len() - i,
            {
                push_be32(&mut out, vs[i]);
                i = i + 1;
                proof {
                    assert(vs@.take(i as int).drop_last() =~= vs@.take(i as int - 1));
                    assert(vs@.take(i as int).last() == vs@[i as int - 1]);
                }
            }
            proof {
                assert(vs@.take(vs@.len() as int) =~= vs@);
            }
            Ok(out)
        },
        FdtPropval::U64Array(vs) => {
            let mut out: Vec<u8> = Vec::new();
            let mut i: usize = 0;
            while i < vs.len()
                invariant
                    i <= vs@.len(),
                    out@ == spec_u64_array_bytes(vs@.take(i as int)),
                decreases vs@.len() - i,
            {
                push_be64(&mut out, vs[i]);
                i = i + 1;
                proof {
                    assert(vs@.take(i as int).drop_last() =~= vs@.take(i as int - 1));
                    assert(vs@.take(i as int).last() == vs@[i as int - 1]);
                }
            }
            proof {
                assert(vs@.take(vs@.len() as int) =~= vs@);
            }
            Ok(out)
        },
        FdtPropval::Str(s) => {
            let bytes = s.as_str().as_bytes();
            if bytes_have_nul(bytes) {
                return Err(Error::InvalidString(s.clone()));
            }
            let mut out: Vec<u8> = Vec::new();
            push_bytes(&mut out, bytes);
            out.push(0u8);
            proof {
                assert(out@ =~= spec_str_value_bytes(s@) + seq![0u8]);
            }
            Ok(out)
        },
        FdtPropval::StrList(ss) => {
            let mut out: Vec<u8> = Vec::new();
            let mut i: usize = 0;
            while i < ss.len()
                invariant
                    i <= ss@.len(),
                    out@ == spec_str_list_bytes(ss.deep_view().take(i as int)),
                    forall|j: int| 0 <= j < i ==> !str_value_has_nul(#[trigger] ss.deep_view()[j]),
                decreases ss@.len() - i,
            {
                let bytes = ss[i].as_str().as_bytes();
                if bytes_have_nul(bytes) {
                    proof {
                        let dv = ss.deep_view();
                        assert(dv[i as int] == ss@[i as int]@);
                        assert(str_value_has_nul(dv[i as int]));
                        lemma_first_nul_str_at(dv, i as int);
                        assert(str_list_has_nul(dv));
                    }
                    return Err(Error::InvalidString(ss[i].clone()));
                }
                push_bytes(&mut out, bytes);
                out.push(0u8);
                i = i + 1;
                proof {
                    let dv = ss.deep_view();
                    assert(dv.take(i as int).drop_last() =~= dv.take(i as int - 1));
                    assert(dv.take(i as int).last() == dv[i as int - 1]);
                    assert(out@ =~= spec_str_list_bytes(dv.take(i as int)));
                }
            }
            proof {
                assert(ss.deep_view().take(ss@.len() as int) =~= ss.deep_view());
            }
            Ok(out)
        },
    }
}

} // verus!
