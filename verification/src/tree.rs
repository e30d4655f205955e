//! The document tree that the codec reads and writes.
//!
//! A node carries an ordered stream of positional values (`args`), named
//! properties (`props`, a later property with the same name shadows an
//! earlier one), and an ordered list of named children (`children`, the same
//! name may repeat).  Values are typed tokens: a string, an integer, or a
//! floating-point token carried by its bit pattern, which this crate treats
//! as opaque.

use vstd::prelude::*;

verus! {

broadcast use vstd::std_specs::vec::group_vec_axioms;

/// A positional or property value of the tree format: a string token, an
/// integer token, or a floating-point token held as its IEEE-754 bit
/// pattern (opaque to the codec).
#[derive(Clone, Debug, PartialEq)]
pub enum Value {
    Str(String),
    Int(i64),
    Float(u64),
}

/// A named property of a node.
#[derive(Clone, Debug, PartialEq)]
pub struct Prop {
    pub name: String,
    pub value: Value,
}

/// A named child node.
#[derive(Debug, PartialEq)]
pub struct Child {
    pub name: String,
    pub node: Node,
}

/// A node of the document tree.
#[derive(Debug, PartialEq)]
pub struct Node {
    pub args: Vec<Value>,
    pub props: Vec<Prop>,
    pub children: Vec<Child>,
}

/// Mathematical mirror of [`Value`].
#[verifier::ext_equal]
pub ghost enum ValueS {
    Str(Seq<char>),
    Int(i64),
    Float(u64),
}

/// Mathematical mirror of [`Prop`].
#[verifier::ext_equal]
pub ghost struct PropS {
    pub name: Seq<char>,
    pub value: ValueS,
}

/// Mathematical mirror of [`Child`].
#[verifier::ext_equal]
pub ghost struct ChildS {
    pub name: Seq<char>,
    pub node: NodeS,
}

/// Mathematical mirror of [`Node`].
#[verifier::ext_equal]
pub ghost struct NodeS {
    pub args: Seq<ValueS>,
    pub props: Seq<PropS>,
    pub children: Seq<ChildS>,
}

impl Value {
    pub open spec fn deep(&self) -> ValueS {
        match self {
            Value::Str(s) => ValueS::Str(s@),
            Value::Int(i) => ValueS::Int(*i),
            Value::Float(b) => ValueS::Float(*b),
        }
    }
}

impl Prop {
    pub open spec fn deep(&self) -> PropS {
        PropS { name: self.name@, value: self.value.deep() }
    }
}

impl Child {
    pub open spec fn deep(&self) -> ChildS
        decreases *self,
    {
        ChildS { name: self.name@, node: self.node.deep() }
    }
}

/// Mathematical mirror of a sequence of children, elementwise.
pub open spec fn deep_children(cs: Seq<Child>) -> Seq<ChildS>
    decreases cs,
{
    if cs.len() == 0 {
        seq![]
    } else {
        proof {
            vstd::seq::axiom_seq_index_decreases(cs, cs.len() - 1);
            vstd::seq::axiom_seq_subrange_decreases(cs, 0, cs.len() - 1);
            assert(cs.drop_last() == cs.subrange(0, cs.len() - 1));
            assert(cs.last() == cs[cs.len() - 1]);
        }
        deep_children(cs.drop_last()).push(cs.last().deep())
    }
}

impl Node {
    pub open spec fn deep(&self) -> NodeS
        decreases *self,
    {
        proof {
            assert(decreases_to!(*self => self.children));
            assert(decreases_to!(self.children => self.children@));
        }
        NodeS {
            args: Seq::new(self.args@.len(), |i: int| self.args@[i].deep()),
            props: Seq::new(self.props@.len(), |i: int| self.props@[i].deep()),
            children: deep_children(self.children@),
        }
    }
}

/// The mirror of a sequence of children has the same length and mirrors
/// elementwise.
pub proof fn lemma_deep_children_index(cs: Seq<Child>)
    ensures
        deep_children(cs).len() == cs.len(),
        forall|i: int| 0 <= i < cs.len() ==> deep_children(cs)[i] == cs[i].deep(),
    decreases cs.len(),
{
    if cs.len() > 0 {
        lemma_deep_children_index(cs.drop_last());
        assert forall|i: int| 0 <= i < cs.len() implies deep_children(cs)[i] == cs[i].deep() by {
            if i < cs.len() - 1 {
                assert(cs.drop_last()[i] == cs[i]);
            }
        }
    }
}

/// Taking one more element of a sequence appends that element.
pub proof fn lemma_take_step<T>(s: Seq<T>, i: int)
    requires
        0 <= i < s.len(),
    ensures
        s.take(i + 1) == s.take(i).push(s[i]),
{
    assert(s.take(i + 1) =~= s.take(i).push(s[i]));
}

/// The value of the property named `name`, where a later property with the
/// same name shadows an earlier one.
pub open spec fn prop_lookup(props: Seq<PropS>, name: Seq<char>) -> Option<ValueS>
    decreases props.len(),
{
    if props.len() == 0 {
        None
    } else if props.last().name == name {
        Some(props.last().value)
    } else {
        prop_lookup(props.drop_last(), name)
    }
}

/// The nodes of the children named `name`, in order.
pub open spec fn named(children: Seq<ChildS>, name: Seq<char>) -> Seq<NodeS>
    decreases children.len(),
{
    if children.len() == 0 {
        seq![]
    } else {
        let rest = named(children.drop_last(), name);
        if children.last().name == name {
            rest.push(children.last().node)
        } else {
            rest
        }
    }
}

/// The node of the first child named `name`, if any.
pub open spec fn first_child(children: Seq<ChildS>, name: Seq<char>) -> Option<NodeS>
    decreases children.len(),
{
    if children.len() == 0 {
        None
    } else if children.first().name == name {
        Some(children.first().node)
    } else {
        first_child(children.drop_first(), name)
    }
}

} // verus!
