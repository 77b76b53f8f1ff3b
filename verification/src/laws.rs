//! Properties the serializer guarantees, stated and proved over the same
//! specification functions the operations' contracts use.

use vstd::prelude::*;

use crate::fdt::Fdt;
use crate::node::props_sorted;
use crate::node::nodes_sorted;
use crate::node::spec_insert_node;
use crate::node::spec_insert_prop;
use crate::order::bytes_lt;
use crate::order::lemma_bytes_lt_connected;
use crate::order::lemma_bytes_lt_transitive;
use crate::fdt::spec_fdt_bytes;
use crate::fdt::spec_fdt_header;
use crate::fdt::spec_fdt_body;
use crate::fdt::spec_off_dt_strings;
use crate::fdt::spec_off_dt_struct;
use crate::fdt::spec_off_mem_rsvmap;
use crate::fdt::spec_strings_block_bytes;
use crate::fdt::spec_struct_block_bytes;
use crate::fdt::spec_total_size;
use crate::header::FDT_HEADER_SIZE;
use crate::node::FdtNode;
use crate::reserve::FdtReserveEntry;
use crate::reserve::spec_rsvmap_bytes;
use crate::strings::tbl_contains;
use crate::strings::tbl_distinct;
use crate::strings::tbl_intern;
use crate::strings::tbl_offset;
use crate::strings::lemma_tbl_offset_stable;
use crate::util::lemma_align_up_aligned;

verus! {

/// Determinism: the blob is a function of the tree, the reservation list and
/// the boot CPU id alone — two trees that agree on those, or one tree
/// finished twice (`finish` leaves the tree as it was), give byte-identical
/// blobs.
pub proof fn lemma_finish_deterministic(a: Fdt, b: Fdt)
    requires
        a.root == b.root,
        a.reserved_memory@ == b.reserved_memory@,
        a.boot_cpuid_phys == b.boot_cpuid_phys,
    ensures
        spec_fdt_bytes(a.root, a.reserved_memory@, a.boot_cpuid_phys) == spec_fdt_bytes(
            b.root,
            b.reserved_memory@,
            b.boot_cpuid_phys,
        ),
{
}

/// String reuse, first half: interning a name a second time leaves the table
/// — and with it the strings block — unchanged, and hands back the offset
/// the first interning assigned.
pub proof fn lemma_string_reuse(tbl: Seq<Seq<u8>>, name: Seq<u8>)
    ensures
        tbl_intern(tbl_intern(tbl, name), name) == tbl_intern(tbl, name),
        tbl_offset(tbl_intern(tbl_intern(tbl, name), name), name) == tbl_offset(
            tbl_intern(tbl, name),
            name,
        ),
{
    if !tbl_contains(tbl, name) {
        assert(tbl.push(name)[tbl.len() as int] == name);
    }
}

/// String reuse, second half: once a name is interned, interning other names
/// never moves it, so every property record referencing it encodes the same
/// offset.
pub proof fn lemma_string_offset_stable(tbl: Seq<Seq<u8>>, name: Seq<u8>, other: Seq<u8>)
    requires
        tbl_contains(tbl, name),
    ensures
        tbl_contains(tbl_intern(tbl, other), name),
        tbl_offset(tbl_intern(tbl, other), name) == tbl_offset(tbl, name),
{
    lemma_tbl_offset_stable(tbl, name, other);
}

/// String reuse, third half: interning keeps the table's names distinct, so
/// each name contributes exactly one copy to the strings block.
pub proof fn lemma_string_distinct(tbl: Seq<Seq<u8>>, name: Seq<u8>)
    requires
        tbl_distinct(tbl),
    ensures
        tbl_distinct(tbl_intern(tbl, name)),
{
    if !tbl_contains(tbl, name) {
        let pushed = tbl.push(name);
        assert forall|i: int, j: int| 0 <= i < j < pushed.len() implies pushed[i] != pushed[j] by {
            if j == tbl.len() as int {
                assert(pushed[i] == tbl[i]);
            }
        };
    }
}

proof fn lemma_insert_prop_unfold_cons(
    h: (Seq<u8>, Seq<u8>),
    s: Seq<(Seq<u8>, Seq<u8>)>,
    name: Seq<u8>,
    value: Seq<u8>,
)
    ensures
        spec_insert_prop(seq![h] + s, name, value) == if bytes_lt(h.0, name) {
            seq![h] + spec_insert_prop(s, name, value)
        } else if h.0 == name {
            seq![(name, value)] + s
        } else {
            seq![(name, value)] + (seq![h] + s)
        },
{
    assert((seq![h] + s)[0] == h);
    assert((seq![h] + s).drop_first() =~= s);
    assert((seq![h] + s).len() == 1 + s.len());
}

proof fn lemma_insert_prop_comm_lt(
    props: Seq<(Seq<u8>, Seq<u8>)>,
    n1: Seq<u8>,
    v1: Seq<u8>,
    n2: Seq<u8>,
    v2: Seq<u8>,
)
    requires
        props_sorted(props),
        bytes_lt(n1, n2),
    ensures
        spec_insert_prop(spec_insert_prop(props, n1, v1), n2, v2) == spec_insert_prop(
            spec_insert_prop(props, n2, v2),
            n1,
            v1,
        ),
    decreases props.len(),
{
    lemma_bytes_lt_connected(n1, n2);
    let x1 = (n1, v1);
    let x2 = (n2, v2);
    if props.len() == 0 {
        assert(spec_insert_prop(props, n1, v1) == seq![x1]);
        assert(spec_insert_prop(props, n2, v2) == seq![x2]);
        lemma_insert_prop_unfold_cons(x1, Seq::empty(), n2, v2);
        lemma_insert_prop_unfold_cons(x2, Seq::empty(), n1, v1);
        assert(seq![x1] =~= seq![x1] + Seq::<(Seq<u8>, Seq<u8>)>::empty());
        assert(seq![x2] =~= seq![x2] + Seq::<(Seq<u8>, Seq<u8>)>::empty());
        assert(spec_insert_prop(Seq::empty(), n2, v2) == seq![x2]);
        assert(seq![x1] + (seq![x2] + Seq::<(Seq<u8>, Seq<u8>)>::empty()) =~= seq![x1] + seq![x2]);
    } else {
        let h = props[0];
        let rest = props.drop_first();
        assert(props =~= seq![h] + rest);
        assert(props_sorted(rest)) by {
            assert forall|i: int, j: int| 0 <= i < j < rest.len() implies bytes_lt(
                rest[i].0,
                rest[j].0,
            ) by {
                assert(rest[i] == props[i + 1]);
                assert(rest[j] == props[j + 1]);
            };
        };
        lemma_insert_prop_unfold_cons(h, rest, n1, v1);
        lemma_insert_prop_unfold_cons(h, rest, n2, v2);
        if bytes_lt(h.0, n1) {
            lemma_bytes_lt_transitive(h.0, n1, n2);
            let a = spec_insert_prop(rest, n1, v1);
            let b = spec_insert_prop(rest, n2, v2);
            lemma_insert_prop_unfold_cons(h, a, n2, v2);
            lemma_insert_prop_unfold_cons(h, b, n1, v1);
            lemma_insert_prop_comm_lt(rest, n1, v1, n2, v2);
        } else if h.0 == n1 {
            // Setting `n1` replaces the head; setting `n2` lands further in.
            lemma_insert_prop_unfold_cons(x1, rest, n2, v2);
            let b = spec_insert_prop(rest, n2, v2);
            lemma_insert_prop_unfold_cons(h, b, n1, v1);
        } else {
            lemma_bytes_lt_connected(h.0, n1);
            // `n1` sorts before the head; where `n2` lands depends on `h`.
            lemma_insert_prop_unfold_cons(x1, props, n2, v2);
            if bytes_lt(h.0, n2) {
                let b = spec_insert_prop(rest, n2, v2);
                lemma_insert_prop_unfold_cons(x1, seq![h] + b, n2, v2);
                lemma_insert_prop_unfold_cons(h, b, n1, v1);
            } else if h.0 == n2 {
                lemma_insert_prop_unfold_cons(x2, rest, n1, v1);
            } else {
                lemma_bytes_lt_connected(h.0, n2);
                lemma_insert_prop_unfold_cons(x2, props, n1, v1);
            }
        }
    }
}

/// Order-independence of sibling properties: setting two properties with
/// different names lands in the same sorted list whichever is set first, so
/// the serialized output cannot depend on insertion order.
pub proof fn lemma_set_prop_order_independent(
    props: Seq<(Seq<u8>, Seq<u8>)>,
    n1: Seq<u8>,
    v1: Seq<u8>,
    n2: Seq<u8>,
    v2: Seq<u8>,
)
    requires
        props_sorted(props),
        n1 != n2,
    ensures
        spec_insert_prop(spec_insert_prop(props, n1, v1), n2, v2) == spec_insert_prop(
            spec_insert_prop(props, n2, v2),
            n1,
            v1,
        ),
{
    lemma_bytes_lt_connected(n1, n2);
    if bytes_lt(n1, n2) {
        lemma_insert_prop_comm_lt(props, n1, v1, n2, v2);
    } else {
        lemma_insert_prop_comm_lt(props, n2, v2, n1, v1);
    }
}

proof fn lemma_insert_node_unfold_cons(h: FdtNode, s: Seq<FdtNode>, node: FdtNode)
    ensures
        spec_insert_node(seq![h] + s, node) == if bytes_lt(h.name@, node.name@) {
            seq![h] + spec_insert_node(s, node)
        } else if h.name@ == node.name@ {
            seq![node] + s
        } else {
            seq![node] + (seq![h] + s)
        },
{
    assert((seq![h] + s)[0] == h);
    assert((seq![h] + s).drop_first() =~= s);
    assert((seq![h] + s).len() == 1 + s.len());
}

proof fn lemma_insert_node_comm_lt(ns: Seq<FdtNode>, a: FdtNode, b: FdtNode)
    requires
        nodes_sorted(ns),
        bytes_lt(a.name@, b.name@),
    ensures
        spec_insert_node(spec_insert_node(ns, a), b) == spec_insert_node(
            spec_insert_node(ns, b),
            a,
        ),
    decreases ns.len(),
{
    lemma_bytes_lt_connected(a.name@, b.name@);
    if ns.len() == 0 {
        lemma_insert_node_unfold_cons(a, Seq::empty(), b);
        lemma_insert_node_unfold_cons(b, Seq::empty(), a);
        assert(seq![a] =~= seq![a] + Seq::<FdtNode>::empty());
        assert(seq![b] =~= seq![b] + Seq::<FdtNode>::empty());
        assert(seq![a] + (seq![b] + Seq::<FdtNode>::empty()) =~= seq![a] + seq![b]);
    } else {
        let h = ns[0];
        let rest = ns.drop_first();
        assert(ns =~= seq![h] + rest);
        assert(nodes_sorted(rest)) by {
            assert forall|i: int, j: int| 0 <= i < j < rest.len() implies bytes_lt(
                rest[i].name@,
                rest[j].name@,
            ) by {
                assert(rest[i] == ns[i + 1]);
                assert(rest[j] == ns[j + 1]);
            };
        };
        lemma_insert_node_unfold_cons(h, rest, a);
        lemma_insert_node_unfold_cons(h, rest, b);
        if bytes_lt(h.name@, a.name@) {
            lemma_bytes_lt_transitive(h.name@, a.name@, b.name@);
            let sa = spec_insert_node(rest, a);
            let sb = spec_insert_node(rest, b);
            lemma_insert_node_unfold_cons(h, sa, b);
            lemma_insert_node_unfold_cons(h, sb, a);
            lemma_insert_node_comm_lt(rest, a, b);
        } else if h.name@ == a.name@ {
            lemma_insert_node_unfold_cons(a, rest, b);
            let sb = spec_insert_node(rest, b);
            lemma_insert_node_unfold_cons(h, sb, a);
        } else {
            lemma_bytes_lt_connected(h.name@, a.name@);
            lemma_insert_node_unfold_cons(a, ns, b);
            if bytes_lt(h.name@, b.name@) {
                let sb = spec_insert_node(rest, b);
                lemma_insert_node_unfold_cons(a, seq![h] + sb, b);
                lemma_insert_node_unfold_cons(h, sb, a);
            } else if h.name@ == b.name@ {
                lemma_insert_node_unfold_cons(b, rest, a);
            } else {
                lemma_bytes_lt_connected(h.name@, b.name@);
                lemma_insert_node_unfold_cons(b, ns, a);
            }
        }
    }
}

/// Order-independence of sibling children: inserting two children with
/// different names yields the same sorted child list whichever is created
/// first, so the serialized output cannot depend on creation order.
pub proof fn lemma_insert_node_order_independent(ns: Seq<FdtNode>, a: FdtNode, b: FdtNode)
    requires
        nodes_sorted(ns),
        a.name@ != b.name@,
    ensures
        spec_insert_node(spec_insert_node(ns, a), b) == spec_insert_node(
            spec_insert_node(ns, b),
            a,
        ),
{
    lemma_bytes_lt_connected(a.name@, b.name@);
    if bytes_lt(a.name@, b.name@) {
        lemma_insert_node_comm_lt(ns, a, b);
    } else {
        lemma_insert_node_comm_lt(ns, b, a);
    }
}

/// Alignment: the reserved-memory and structure blocks start on 8-byte
/// boundaries, the strings block on a 4-byte boundary; every block boundary
/// is 4-byte aligned.
pub proof fn lemma_block_alignment(root: FdtNode, rsv: Seq<FdtReserveEntry>)
    ensures
        spec_off_mem_rsvmap() % 8 == 0,
        spec_off_dt_struct(rsv) % 8 == 0,
        spec_off_mem_rsvmap() % 4 == 0,
        spec_off_dt_struct(rsv) % 4 == 0,
        spec_off_dt_strings(root, rsv) % 4 == 0,
{
    lemma_align_up_aligned(FDT_HEADER_SIZE as int, 8);
    lemma_align_up_aligned(spec_off_mem_rsvmap() + spec_rsvmap_bytes(rsv).len(), 8);
    lemma_align_up_aligned(spec_off_dt_struct(rsv) + spec_struct_block_bytes(root).len(), 4);
    assert(spec_off_mem_rsvmap() == 40);
    let s = spec_off_dt_struct(rsv);
    assert(s % 4 == 0) by {
        vstd::arithmetic::div_mod::lemma_fundamental_div_mod(s, 8);
        assert(s == 8 * (s / 8));
        assert((2 * (s / 8)) * 4 == 8 * (s / 8)) by (nonlinear_arith);
        vstd::arithmetic::div_mod::lemma_mod_multiples_basic(2 * (s / 8), 4);
    };
}

/// Size accounting: the header's `total_size` is the literal byte length of
/// the finished blob; the strings block runs from `off_dt_strings` to the
/// blob's end, and the structure block from `off_dt_struct` to
/// `off_dt_strings`.
pub proof fn lemma_size_accounting(root: FdtNode, rsv: Seq<FdtReserveEntry>, boot: u32)
    requires
        spec_total_size(root, rsv) <= u32::MAX,
    ensures
        spec_fdt_header(root, rsv, boot).total_size as int == spec_fdt_bytes(
            root,
            rsv,
            boot,
        ).len(),
        spec_fdt_header(root, rsv, boot).size_dt_strings + spec_fdt_header(
            root,
            rsv,
            boot,
        ).off_dt_strings == spec_fdt_header(root, rsv, boot).total_size,
        spec_fdt_header(root, rsv, boot).off_dt_strings - spec_fdt_header(
            root,
            rsv,
            boot,
        ).off_dt_struct == spec_fdt_header(root, rsv, boot).size_dt_struct,
{
    assert(spec_fdt_body(root, rsv).len() == spec_total_size(root, rsv));
    assert(spec_fdt_bytes(root, rsv, boot).len() == spec_total_size(root, rsv));
}

} // verus!
