//! The devicetree node: a named node holding properties and child nodes.
//!
//! Properties and children are kept strictly sorted by name, so the tree —
//! and with it the serialized blob — depends only on what was inserted,
//! never on the order of insertion.

use vstd::prelude::*;
use vstd::slice::slice_to_vec;
use vstd::string::StringSliceAdditionalSpecFns;

use crate::error::Error;
use crate::name::is_valid_node_name;
use crate::name::is_valid_prop_name;
use crate::name::spec_valid_node_name;
use crate::name::spec_valid_prop_name;
use crate::order::bytes_lt;
use crate::order::bytes_lt_exec;
use crate::order::lemma_bytes_lt_connected;
use crate::order::lemma_bytes_lt_transitive;
use crate::propval::FdtPropval;
use crate::propval::propval_has_nul;
use crate::propval::propval_bad_str;
use crate::propval::propval_to_bytes;
use crate::propval::spec_propval_bytes;
use crate::util::bytes_eq;

verus! {

/// A flattened devicetree node: a name, named properties holding raw byte
/// values, and named child nodes.
#[derive(Debug)]
pub struct FdtNode {
    /// The node's name.
    pub name: Vec<u8>,
    /// The node's properties, strictly sorted by name.
    pub props: Vec<(Vec<u8>, Vec<u8>)>,
    /// The node's children, strictly sorted by name.
    pub subnodes: Vec<FdtNode>,
}

/// The properties as a sequence of (name, value) byte-string pairs.
pub open spec fn props_view(props: Seq<(Vec<u8>, Vec<u8>)>) -> Seq<(Seq<u8>, Seq<u8>)> {
    props.map_values(|p: (Vec<u8>, Vec<u8>)| (p.0@, p.1@))
}

/// Property lists are kept strictly sorted by name.
pub open spec fn props_sorted(props: Seq<(Seq<u8>, Seq<u8>)>) -> bool {
    forall|i: int, j: int| 0 <= i < j < props.len() ==> bytes_lt(props[i].0, props[j].0)
}

/// Child lists are kept strictly sorted by node name.
pub open spec fn nodes_sorted(ns: Seq<FdtNode>) -> bool {
    forall|i: int, j: int|
        0 <= i < j < ns.len() ==> bytes_lt(
            (#[trigger] ns[i]).name@,
            (#[trigger] ns[j]).name@,
        )
}

/// Whether some child of `ns` is named `name`.
pub open spec fn has_subnode(ns: Seq<FdtNode>, name: Seq<u8>) -> bool {
    exists|i: int| 0 <= i < ns.len() && (#[trigger] ns[i]).name@ == name
}

/// In a sorted child list, the position at which a child named `name` lives
/// or would be inserted: the number of children named below `name`.
pub open spec fn subnode_pos(ns: Seq<FdtNode>, name: Seq<u8>) -> int
    decreases ns.len(),
{
    if ns.len() == 0 {
        0
    } else if bytes_lt(ns[0].name@, name) {
        1 + subnode_pos(ns.drop_first(), name)
    } else {
        0
    }
}

/// A node with the given name and no properties or children.
pub open spec fn is_empty_node(n: FdtNode, name: Seq<u8>) -> bool {
    n.name@ == name && n.props@.len() == 0 && n.subnodes@.len() == 0
}

/// A sorted property list with `(name, value)` set: an existing entry named
/// `name` is overwritten in place, a new one is inserted where it sorts.
pub open spec fn spec_insert_prop(
    props: Seq<(Seq<u8>, Seq<u8>)>,
    name: Seq<u8>,
    value: Seq<u8>,
) -> Seq<(Seq<u8>, Seq<u8>)>
    decreases props.len(),
{
    if props.len() == 0 {
        seq![(name, value)]
    } else if bytes_lt(props[0].0, name) {
        seq![props[0]] + spec_insert_prop(props.drop_first(), name, value)
    } else if props[0].0 == name {
        seq![(name, value)] + props.drop_first()
    } else {
        seq![(name, value)] + props
    }
}

/// A sorted child list with `node` set: an existing child of the same name
/// is replaced, a new one is inserted where it sorts.
pub open spec fn spec_insert_node(ns: Seq<FdtNode>, node: FdtNode) -> Seq<FdtNode>
    decreases ns.len(),
{
    if ns.len() == 0 {
        seq![node]
    } else if bytes_lt(ns[0].name@, node.name@) {
        seq![ns[0]] + spec_insert_node(ns.drop_first(), node)
    } else if ns[0].name@ == node.name@ {
        seq![node] + ns.drop_first()
    } else {
        seq![node] + ns
    }
}

impl FdtNode {
    /// The node's structural invariant: its name is legal; property names are
    /// legal, strictly sorted, and their values fit the 32-bit length field;
    /// children are strictly sorted by name and themselves well-formed.
    pub open spec fn wf(&self) -> bool
        decreases *self,
    {
        &&& spec_valid_node_name(self.name@)
        &&& (forall|i: int|
            0 <= i < self.props@.len() ==> spec_valid_prop_name(
                (#[trigger] self.props@[i]).0@,
            ))
        &&& (forall|i: int|
            0 <= i < self.props@.len() ==> (#[trigger] self.props@[i]).1@.len() <= u32::MAX)
        &&& props_sorted(props_view(self.props@))
        &&& nodes_sorted(self.subnodes@)
        &&& (forall|i: int| 0 <= i < self.subnodes@.len() ==> (#[trigger] self.subnodes@[i]).wf())
    }
}

/// Where a scan for `name` stops in a sorted list, `subnode_pos` agrees.
proof fn lemma_subnode_pos_at(ns: Seq<FdtNode>, name: Seq<u8>, k: int)
    requires
        0 <= k <= ns.len(),
        forall|j: int| 0 <= j < k ==> bytes_lt((#[trigger] ns[j]).name@, name),
        k < ns.len() ==> !bytes_lt(ns[k as int].name@, name),
    ensures
        subnode_pos(ns, name) == k,
    decreases k,
{
    if k == 0 {
    } else {
        lemma_subnode_pos_at(ns.drop_first(), name, k - 1);
    }
}

/// The result of inserting at the scan position, written as a plain sequence
/// operation: overwrite in place when the name is present, insert otherwise.
proof fn lemma_insert_prop_at(
    props: Seq<(Seq<u8>, Seq<u8>)>,
    name: Seq<u8>,
    value: Seq<u8>,
    k: int,
)
    requires
        0 <= k <= props.len(),
        forall|j: int| 0 <= j < k ==> bytes_lt((#[trigger] props[j]).0, name),
        k < props.len() ==> !bytes_lt(props[k as int].0, name),
    ensures
        spec_insert_prop(props, name, value) == if k < props.len() && props[k as int].0 == name {
            props.update(k, (name, value))
        } else {
            props.insert(k, (name, value))
        },
    decreases k,
{
    if k == 0 {
        if props.len() == 0 {
            assert(spec_insert_prop(props, name, value) =~= props.insert(0, (name, value)));
        } else if props[0].0 == name {
            assert(seq![(name, value)] + props.drop_first() =~= props.update(0, (name, value)));
        } else {
            assert(seq![(name, value)] + props =~= props.insert(0, (name, value)));
        }
    } else {
        lemma_insert_prop_at(props.drop_first(), name, value, k - 1);
        if k < props.len() && props[k as int].0 == name {
            assert(props.drop_first()[k - 1] == props[k as int]);
            assert(seq![props[0]] + props.drop_first().update(k - 1, (name, value))
                =~= props.update(k, (name, value)));
        } else {
            assert(seq![props[0]] + props.drop_first().insert(k - 1, (name, value))
                =~= props.insert(k, (name, value)));
        }
    }
}

/// The same characterization for child lists.
proof fn lemma_insert_node_at(ns: Seq<FdtNode>, node: FdtNode, k: int)
    requires
        0 <= k <= ns.len(),
        forall|j: int| 0 <= j < k ==> bytes_lt((#[trigger] ns[j]).name@, node.name@),
        k < ns.len() ==> !bytes_lt(ns[k as int].name@, node.name@),
    ensures
        spec_insert_node(ns, node) == if k < ns.len() && ns[k as int].name@ == node.name@ {
            ns.update(k, node)
        } else {
            ns.insert(k, node)
        },
    decreases k,
{
    if k == 0 {
        if ns.len() == 0 {
            assert(spec_insert_node(ns, node) =~= ns.insert(0, node));
        } else if ns[0].name@ == node.name@ {
            assert(seq![node] + ns.drop_first() =~= ns.update(0, node));
        } else {
            assert(seq![node] + ns =~= ns.insert(0, node));
        }
    } else {
        lemma_insert_node_at(ns.drop_first(), node, k - 1);
        if k < ns.len() && ns[k as int].name@ == node.name@ {
            assert(ns.drop_first()[k - 1] == ns[k as int]);
            assert(seq![ns[0]] + ns.drop_first().update(k - 1, node) =~= ns.update(k, node));
        } else {
            assert(seq![ns[0]] + ns.drop_first().insert(k - 1, node) =~= ns.insert(k, node));
        }
    }
}

/// The (name bytes, value bytes) view of a property list given by the caller.
pub open spec fn pairs_view(props: Seq<(String, Vec<u8>)>) -> Seq<(Seq<u8>, Seq<u8>)> {
    props.map_values(
        |p: (String, Vec<u8>)| (vstd::utf8::encode_utf8(p.0@), p.1@),
    )
}

/// Every property name in the caller-given list is legal.
pub open spec fn all_prop_names_valid(props: Seq<(String, Vec<u8>)>) -> bool {
    forall|i: int|
        0 <= i < props.len() ==> spec_valid_prop_name(
            vstd::utf8::encode_utf8((#[trigger] props[i]).0@),
        )
}

/// The first illegal property name in the caller-given list.
pub open spec fn spec_first_invalid_prop_name(props: Seq<(String, Vec<u8>)>) -> Seq<char>
    decreases props.len(),
{
    if props.len() == 0 {
        Seq::empty()
    } else if !spec_valid_prop_name(vstd::utf8::encode_utf8(props[0].0@)) {
        props[0].0@
    } else {
        spec_first_invalid_prop_name(props.drop_first())
    }
}

proof fn lemma_first_invalid_prop_name_at(props: Seq<(String, Vec<u8>)>, i: int)
    requires
        0 <= i < props.len(),
        forall|j: int|
            0 <= j < i ==> spec_valid_prop_name(
                vstd::utf8::encode_utf8((#[trigger] props[j]).0@),
            ),
        !spec_valid_prop_name(vstd::utf8::encode_utf8(props[i].0@)),
    ensures
        spec_first_invalid_prop_name(props) == props[i].0@,
    decreases i,
{
    if i > 0 {
        lemma_first_invalid_prop_name_at(props.drop_first(), i - 1);
    }
}

/// The property list built by setting each pair in turn, starting from `base`.
pub open spec fn spec_insert_props_all(
    base: Seq<(Seq<u8>, Seq<u8>)>,
    pairs: Seq<(Seq<u8>, Seq<u8>)>,
) -> Seq<(Seq<u8>, Seq<u8>)>
    decreases pairs.len(),
{
    if pairs.len() == 0 {
        base
    } else {
        spec_insert_prop(
            spec_insert_props_all(base, pairs.drop_last()),
            pairs.last().0,
            pairs.last().1,
        )
    }
}

/// The child list built by setting each node in turn, starting from `base`.
pub open spec fn spec_insert_nodes_all(base: Seq<FdtNode>, ns: Seq<FdtNode>) -> Seq<FdtNode>
    decreases ns.len(),
{
    if ns.len() == 0 {
        base
    } else {
        spec_insert_node(spec_insert_nodes_all(base, ns.drop_last()), ns.last())
    }
}

impl FdtNode {
    /// Create a node with the given name, properties, and child nodes.
    /// Rejects an illegal node name, then the first illegal property name,
    /// without producing a node.  Properties and children land in name order,
    /// whatever the order given; a repeated name keeps the entry given last.
    #[verifier::loop_isolation(false)]
    pub fn new(name: &str, props: Vec<(String, Vec<u8>)>, subnodes: Vec<FdtNode>) -> (r: Result<
        FdtNode,
        Error,
    >)
        requires
            forall|i: int| 0 <= i < props@.len() ==> (#[trigger] props@[i]).1@.len() <= u32::MAX,
            forall|i: int| 0 <= i < subnodes@.len() ==> (#[trigger] subnodes@[i]).wf(),
        ensures
            match r {
                Ok(n) => {
                    &&& spec_valid_node_name(name.spec_bytes())
                    &&& all_prop_names_valid(props@)
                    &&& n.wf()
                    &&& n.name@ == name.spec_bytes()
                    &&& props_view(n.props@) == spec_insert_props_all(
                        Seq::empty(),
                        pairs_view(props@),
                    )
                    &&& n.subnodes@ == spec_insert_nodes_all(Seq::empty(), subnodes@)
                },
                Err(e) => {
                    &&& (e matches Error::InvalidName(s) && (if !spec_valid_node_name(
                        name.spec_bytes(),
                    ) {
                        s@ == name@
                    } else {
                        s@ == spec_first_invalid_prop_name(props@)
                    }))
                    &&& (!spec_valid_node_name(name.spec_bytes()) || !all_prop_names_valid(
                        props@,
                    ))
                },
            },
            r is Ok <==> spec_valid_node_name(name.spec_bytes()) && all_prop_names_valid(props@),
    {
        if !is_valid_node_name(name) {
            return Err(Error::InvalidName(name.to_owned()));
        }
        let mut node = FdtNode {
            name: slice_to_vec(name.as_bytes()),
            props: Vec::new(),
            subnodes: Vec::new(),
        };
        proof {
            assert(props_view(node.props@) =~= Seq::<(Seq<u8>, Seq<u8>)>::empty());
            assert(pairs_view(props@).take(0) =~= Seq::<(Seq<u8>, Seq<u8>)>::empty());
        }
        let mut i: usize = 0;
        while i < props.len()
            invariant
                i <= props@.len(),
                node.wf(),
                node.name@ == name.spec_bytes(),
                node.subnodes@.len() == 0,
                forall|j: int|
                    0 <= j < i ==> spec_valid_prop_name(
                        vstd::utf8::encode_utf8((#[trigger] props@[j]).0@),
                    ),
                props_view(node.props@) == spec_insert_props_all(
                    Seq::empty(),
                    pairs_view(props@).take(i as int),
                ),
            decreases props@.len() - i,
        {
            let pname_ok = is_valid_prop_name(props[i].0.as_str());
            if !pname_ok {
                proof {
                    lemma_first_invalid_prop_name_at(props@, i as int);
                }
                return Err(Error::InvalidName(props[i].0.clone()));
            }
            let pname: Vec<u8> = slice_to_vec(props[i].0.as_str().as_bytes());
            let value: Vec<u8> = slice_to_vec(props[i].1.as_slice());
            node.insert_prop_sorted(pname, value);
            i = i + 1;
            proof {
                let pv = pairs_view(props@);
                assert(pv.take(i as int).drop_last() =~= pv.take(i as int - 1));
                assert(pv.take(i as int).last() == pv[i as int - 1]);
            }
        }
        proof {
            assert(pairs_view(props@).take(props@.len() as int) =~= pairs_view(props@));
        }
        let mut children = subnodes;
        let ghost all_children = children@;
        let ghost mut done: int = 0;
        proof {
            assert(children@ =~= all_children.skip(0));
            assert(all_children.take(0) =~= Seq::<FdtNode>::empty());
            assert(node.subnodes@ =~= Seq::<FdtNode>::empty());
        }
        while children.len() > 0
            invariant
                node.wf(),
                node.name@ == name.spec_bytes(),
                props_view(node.props@) == spec_insert_props_all(
                    Seq::empty(),
                    pairs_view(props@),
                ),
                0 <= done <= all_children.len(),
                children@ == all_children.skip(done),
                node.subnodes@ == spec_insert_nodes_all(Seq::empty(), all_children.take(done)),
            decreases children@.len(),
        {
            let child = children.remove(0);
            proof {
                assert(child == all_children[done]);
                assert(child.wf());
            }
            node.insert_subnode_sorted(child);
            proof {
                done = done + 1;
                assert(children@ =~= all_children.skip(done));
                assert(all_children.take(done).drop_last() =~= all_children.take(done - 1));
                assert(all_children.take(done).last() == all_children[done - 1]);
            }
        }
        proof {
            assert(done == all_children.len());
            assert(all_children.take(all_children.len() as int) =~= all_children);
        }
        Ok(node)
    }

    /// Create an empty node with the given name; rejects an illegal name.
    pub fn empty(name: &str) -> (r: Result<FdtNode, Error>)
        ensures
            match r {
                Ok(n) => {
                    &&& spec_valid_node_name(name.spec_bytes())
                    &&& is_empty_node(n, name.spec_bytes())
                    &&& n.wf()
                },
                Err(e) => {
                    &&& !spec_valid_node_name(name.spec_bytes())
                    &&& (e matches Error::InvalidName(s) && s@ == name@)
                },
            },
            r is Ok <==> spec_valid_node_name(name.spec_bytes()),
    {
        if !is_valid_node_name(name) {
            return Err(Error::InvalidName(name.to_owned()));
        }
        Ok(
            FdtNode {
                name: slice_to_vec(name.as_bytes()),
                props: Vec::new(),
                subnodes: Vec::new(),
            },
        )
    }

    /// Set property `name` to the raw bytes `value` encodes to, overwriting
    /// any previous value under that name.  A repeated name always lands in
    /// the same slot.
    ///
    /// Rejects — leaving the node unchanged — an illegal property name, then
    /// a string value with an embedded terminator, then an encoding longer
    /// than the 32-bit length field can carry.
    #[verifier::loop_isolation(false)]
    pub fn set_prop(&mut self, name: &str, value: FdtPropval) -> (r: Result<(), Error>)
        requires
            old(self).wf(),
        ensures
            final(self).wf(),
            final(self).name == old(self).name,
            final(self).subnodes == old(self).subnodes,
            match r {
                Ok(()) => {
                    &&& spec_valid_prop_name(name.spec_bytes())
                    &&& !propval_has_nul(value)
                    &&& spec_propval_bytes(value).len() <= u32::MAX
                    &&& props_view(final(self).props@) == spec_insert_prop(
                        props_view(old(self).props@),
                        name.spec_bytes(),
                        spec_propval_bytes(value),
                    )
                },
                Err(e) => {
                    &&& *final(self) == *old(self)
                    &&& match e {
                        Error::InvalidName(s) => s@ == name@ && !spec_valid_prop_name(
                            name.spec_bytes(),
                        ),
                        Error::InvalidString(s) => {
                            &&& spec_valid_prop_name(name.spec_bytes())
                            &&& propval_has_nul(value)
                            &&& s@ == propval_bad_str(value)
                        },
                        Error::PropertyValueTooLarge => {
                            &&& spec_valid_prop_name(name.spec_bytes())
                            &&& !propval_has_nul(value)
                            &&& spec_propval_bytes(value).len() > u32::MAX
                        },
                        Error::TotalSizeTooLarge => false,
                    }
                },
            },
            r is Ok <==> spec_valid_prop_name(name.spec_bytes()) && !propval_has_nul(value)
                && spec_propval_bytes(value).len() <= u32::MAX,
    {
        if !is_valid_prop_name(name) {
            return Err(Error::InvalidName(name.to_owned()));
        }
        let bytes = match propval_to_bytes(&value) {
            Ok(b) => b,
            Err(e) => {
                return Err(e);
            },
        };
        if bytes.len() > u32::MAX as usize {
            return Err(Error::PropertyValueTooLarge);
        }
        self.insert_prop_sorted(slice_to_vec(name.as_bytes()), bytes);
        Ok(())
    }

    /// Insert `(name, value)` into the sorted property list, overwriting an
    /// existing property of the same name.
    #[verifier::loop_isolation(false)]
    fn insert_prop_sorted(&mut self, name: Vec<u8>, value: Vec<u8>)
        requires
            old(self).wf(),
            spec_valid_prop_name(name@),
            value@.len() <= u32::MAX,
        ensures
            final(self).wf(),
            final(self).name == old(self).name,
            final(self).subnodes == old(self).subnodes,
            props_view(final(self).props@) == spec_insert_prop(
                props_view(old(self).props@),
                name@,
                value@,
            ),
    {
        let ghost pv = props_view(self.props@);
        let mut k: usize = 0;
        while k < self.props.len() && bytes_lt_exec(self.props[k].0.as_slice(), name.as_slice())
            invariant
                k <= self.props@.len(),
                forall|j: int| 0 <= j < k ==> bytes_lt((#[trigger] pv[j]).0, name@),
            decreases self.props@.len() - k,
        {
            k = k + 1;
        }
        proof {
            lemma_insert_prop_at(pv, name@, value@, k as int);
        }
        if k < self.props.len() && bytes_eq(self.props[k].0.as_slice(), name.as_slice()) {
            self.props.remove(k);
            self.props.insert(k, (name, value));
            proof {
                assert(props_view(self.props@) =~= pv.update(k as int, (name@, value@)));
            }
        } else {
            proof {
                if k < self.props@.len() {
                    lemma_bytes_lt_connected(pv[k as int].0, name@);
                }
            }
            self.props.insert(k, (name, value));
            proof {
                assert(props_view(self.props@) =~= pv.insert(k as int, (name@, value@)));
            }
        }
        proof {
            let newv = props_view(self.props@);
            assert forall|i: int, j: int| 0 <= i < j < newv.len() implies bytes_lt(
                (#[trigger] newv[i]).0,
                (#[trigger] newv[j]).0,
            ) by {
                if newv == pv.update(k as int, (name@, value@)) {
                } else {
                    if i == k as int && j > k as int {
                        if !bytes_lt(name@, newv[j].0) {
                        }
                        assert(newv[j] == pv[j - 1]);
                        if k < pv.len() {
                            assert(bytes_lt(name@, pv[k as int].0));
                            if j - 1 > k as int {
                                lemma_bytes_lt_transitive(name@, pv[k as int].0, pv[j - 1].0);
                            }
                        }
                    }
                }
            };
        }
    }

    /// Insert `child` into the sorted child list, replacing an existing
    /// child of the same name.
    #[verifier::loop_isolation(false)]
    fn insert_subnode_sorted(&mut self, child: FdtNode)
        requires
            old(self).wf(),
            child.wf(),
        ensures
            final(self).wf(),
            final(self).name == old(self).name,
            final(self).props == old(self).props,
            final(self).subnodes@ == spec_insert_node(old(self).subnodes@, child),
    {
        let ghost ns = self.subnodes@;
        let mut k: usize = 0;
        while k < self.subnodes.len() && bytes_lt_exec(
            self.subnodes[k].name.as_slice(),
            child.name.as_slice(),
        )
            invariant
                k <= self.subnodes@.len(),
                forall|j: int| 0 <= j < k ==> bytes_lt((#[trigger] ns[j]).name@, child.name@),
            decreases self.subnodes@.len() - k,
        {
            k = k + 1;
        }
        proof {
            lemma_insert_node_at(ns, child, k as int);
        }
        if k < self.subnodes.len() && bytes_eq(
            self.subnodes[k].name.as_slice(),
            child.name.as_slice(),
        ) {
            self.subnodes.remove(k);
            self.subnodes.insert(k, child);
            proof {
                assert(self.subnodes@ =~= ns.update(k as int, child));
            }
        } else {
            proof {
                if k < ns.len() {
                    lemma_bytes_lt_connected(ns[k as int].name@, child.name@);
                }
            }
            self.subnodes.insert(k, child);
            proof {
                assert(self.subnodes@ =~= ns.insert(k as int, child));
            }
        }
        proof {
            let newv = self.subnodes@;
            assert forall|i: int, j: int| 0 <= i < j < newv.len() implies bytes_lt(
                (#[trigger] newv[i]).name@,
                (#[trigger] newv[j]).name@,
            ) by {
                if newv == ns.update(k as int, child) {
                } else {
                    if i == k as int && j > k as int {
                        assert(newv[j] == ns[j - 1]);
                        if k < ns.len() {
                            assert(bytes_lt(child.name@, ns[k as int].name@));
                            if j - 1 > k as int {
                                lemma_bytes_lt_transitive(child.name@, ns[k as int].name@, ns[j - 1].name@);
                            }
                        }
                    }
                }
            };
        }
    }

    /// Look up the child named `name`, creating an empty one if it is absent,
    /// and return a mutable handle to it.  Repeated calls with one name are
    /// idempotent: they return the same logical child.  Rejects an illegal
    /// node name, leaving the node unchanged.
    #[verifier::loop_isolation(false)]
    pub fn subnode_mut(&mut self, name: &str) -> (r: Result<&mut FdtNode, Error>)
        requires
            old(self).wf(),
        ensures
            match r {
                Ok(child) => ({
                    let nb = name.spec_bytes();
                    let ns = old(self).subnodes@;
                    let pos = subnode_pos(ns, nb);
                    &&& spec_valid_node_name(nb)
                    &&& (has_subnode(ns, nb) ==> *child == ns[pos])
                    &&& (!has_subnode(ns, nb) ==> is_empty_node(*child, nb))
                    &&& child.wf()
                    &&& final(self).name == old(self).name
                    &&& final(self).props == old(self).props
                    &&& final(self).subnodes@ == spec_insert_node(ns, *child).update(
                        pos,
                        *final(child),
                    )
                    &&& ((final(child).wf() && final(child).name@ == nb) ==> final(self).wf())
                }),
                Err(e) => {
                    &&& *final(self) == *old(self)
                    &&& !spec_valid_node_name(name.spec_bytes())
                    &&& (e matches Error::InvalidName(s) && s@ == name@)
                },
            },
            r is Ok <==> spec_valid_node_name(name.spec_bytes()),
    {
        if !is_valid_node_name(name) {
            return Err(Error::InvalidName(name.to_owned()));
        }
        let ghost ns = self.subnodes@;
        let ghost nb = name.spec_bytes();
        let name_bytes = name.as_bytes();
        let mut k: usize = 0;
        while k < self.subnodes.len() && bytes_lt_exec(self.subnodes[k].name.as_slice(), name_bytes)
            invariant
                k <= self.subnodes@.len(),
                forall|j: int| 0 <= j < k ==> bytes_lt((#[trigger] ns[j]).name@, nb),
            decreases self.subnodes@.len() - k,
        {
            k = k + 1;
        }
        proof {
            lemma_subnode_pos_at(ns, nb, k as int);
        }
        let found = k < self.subnodes.len() && bytes_eq(self.subnodes[k].name.as_slice(), name_bytes);
        if !found {
            proof {
                if k < ns.len() {
                    lemma_bytes_lt_connected(ns[k as int].name@, nb);
                }
                assert(!has_subnode(ns, nb)) by {
                    assert forall|i: int| 0 <= i < ns.len() implies ns[i].name@ != nb by {
                        if i < k as int {
                            lemma_bytes_lt_connected(ns[i].name@, nb);
                        } else if i > k as int && k < ns.len() {
                            assert(bytes_lt(ns[k as int].name@, ns[i].name@));
                            lemma_bytes_lt_connected(ns[i].name@, nb);
                            if ns[i].name@ == nb {
                                assert(bytes_lt(ns[k as int].name@, nb));
                            }
                        }
                    };
                };
            }
            let child = FdtNode {
                name: slice_to_vec(name_bytes),
                props: Vec::new(),
                subnodes: Vec::new(),
            };
            proof {
                lemma_insert_node_at(ns, child, k as int);
            }
            self.subnodes.insert(k, child);
            proof {
                assert(self.subnodes@ =~= ns.insert(k as int, child));
            }
        } else {
            proof {
                assert(ns[k as int].name@ == nb);
                assert(has_subnode(ns, nb));
                lemma_insert_node_at(ns, ns[k as int], k as int);
                assert(ns.update(k as int, ns[k as int]) =~= ns);
            }
        }
        proof {
            // After an insertion the list stays sorted: everything below the
            // slot is below `name`, everything above is above it.
            let newv = self.subnodes@;
            if !has_subnode(ns, nb) {
                assert forall|i: int, j: int| 0 <= i < j < newv.len() implies bytes_lt(
                    (#[trigger] newv[i]).name@,
                    (#[trigger] newv[j]).name@,
                ) by {
                    if i == k as int && j > k as int {
                        assert(newv[j] == ns[j - 1]);
                        if k < ns.len() {
                            assert(bytes_lt(nb, ns[k as int].name@));
                            if j - 1 > k as int {
                                lemma_bytes_lt_transitive(nb, ns[k as int].name@, ns[j - 1].name@);
                            }
                        }
                    }
                };
            }
        }
        Ok(&mut self.subnodes[k])
    }
}

} // verus!
