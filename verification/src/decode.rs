//! The decoder: one routine per model type, consuming a tree node and
//! producing a model value or a structured error.
//!
//! Decoding is fail-fast, with two deliberate fallback points: the
//! ingredient shorthand (an attempt to read an inline name or measurement
//! off the ingredient node itself that fails simply contributes no entry,
//! and leaves the argument stream where it began), and source conversion
//! (which never fails).

use vstd::prelude::*;

use crate::error::err_at;
use crate::error::err_here;
use crate::error::wrap;
use crate::error::DecodeError;
use crate::error::DecodeErrorS;
use crate::error::ErrorKind;
use crate::model::deep_opt_str;
use crate::model::Ingredient;
use crate::model::IngredientName;
use crate::model::IngredientNameS;
use crate::model::IngredientS;
use crate::model::Instruction;
use crate::model::InstructionS;
use crate::model::Measurement;
use crate::model::MeasurementS;
use crate::model::Quantity;
use crate::model::QuantityS;
use crate::model::Recipe;
use crate::model::RecipeS;
use crate::model::Source;
use crate::model::SourceS;
use crate::source::source_of;
use crate::tree::first_child;
use crate::tree::lemma_take_step;
use crate::tree::named;
use crate::tree::prop_lookup;
use crate::tree::Node;
use crate::tree::NodeS;
use crate::tree::Value;
use crate::tree::ValueS;

verus! {

/// The optional string property named `key`: absent is `None`, a string is
/// kept, anything else is a wrong-type error at the property's name.
pub open spec fn s_prop_str(n: NodeS, key: Seq<char>) -> Result<
    Option<Seq<char>>,
    DecodeErrorS,
> {
    match prop_lookup(n.props, key) {
        None => Ok(None),
        Some(v) => match v {
            ValueS::Str(s) => Ok(Some(s)),
            _ => Err(err_at(key, ErrorKind::WrongType)),
        },
    }
}

/// An ingredient name read from the positional values of `n` starting at
/// index `i`: the next value must be a string, the subtype comes from the
/// "kind" property.  On success the result carries the index after the
/// consumed value.
pub open spec fn s_parse_name(n: NodeS, i: int) -> Result<(IngredientNameS, int), DecodeErrorS> {
    if i >= n.args.len() {
        Err(err_here(ErrorKind::MissingArgument))
    } else {
        match n.args[i] {
            ValueS::Str(nm) => match s_prop_str(n, "kind"@) {
                Ok(subtype) => Ok((IngredientNameS { name: nm, subtype }, i + 1)),
                Err(e) => Err(e),
            },
            _ => Err(err_here(ErrorKind::WrongType)),
        }
    }
}

/// A measurement read from the positional values of `n` starting at index
/// `i`: an integer token is a whole quantity, a floating-point token any
/// other; a following value, if any remains, must be a string and is the
/// unit.  On success the result carries the index after the consumed
/// values.
pub open spec fn s_parse_measurement(n: NodeS, i: int) -> Result<
    (MeasurementS, int),
    DecodeErrorS,
> {
    if i >= n.args.len() {
        Err(err_here(ErrorKind::MissingArgument))
    } else {
        let q = match n.args[i] {
            ValueS::Int(v) => Ok(QuantityS::Whole(v)),
            ValueS::Float(b) => Ok(QuantityS::Fraction(b)),
            ValueS::Str(_) => Err(err_here(ErrorKind::WrongType)),
        };
        match q {
            Err(e) => Err(e),
            Ok(quantity) => if i + 1 >= n.args.len() {
                Ok((MeasurementS { quantity, unit: None }, i + 1))
            } else {
                match n.args[i + 1] {
                    ValueS::Str(u) => Ok((MeasurementS { quantity, unit: Some(u) }, i + 2)),
                    _ => Err(err_here(ErrorKind::WrongType)),
                }
            },
        }
    }
}

/// An ingredient name decoded from a whole node, as the "option" children
/// are.
pub open spec fn s_decode_name_node(n: NodeS) -> Result<IngredientNameS, DecodeErrorS> {
    match s_parse_name(n, 0) {
        Ok(p) => Ok(p.0),
        Err(e) => Err(e),
    }
}

/// A measurement decoded from a whole node, as the "amount" children are.
pub open spec fn s_decode_measurement_node(n: NodeS) -> Result<MeasurementS, DecodeErrorS> {
    match s_parse_measurement(n, 0) {
        Ok(p) => Ok(p.0),
        Err(e) => Err(e),
    }
}

/// The string a child node carries as its leading positional value.
pub open spec fn s_child_str(n: NodeS) -> Result<Seq<char>, DecodeErrorS> {
    if n.args.len() == 0 {
        Err(err_here(ErrorKind::MissingArgument))
    } else {
        match n.args[0] {
            ValueS::Str(s) => Ok(s),
            _ => Err(err_here(ErrorKind::WrongType)),
        }
    }
}

/// The leading string value of every node of a list, stopping at the
/// first failure, whose error is wrapped with the child name `key`.
pub open spec fn s_decode_strs(ns: Seq<NodeS>, key: Seq<char>) -> Result<
    Seq<Seq<char>>,
    DecodeErrorS,
>
    decreases ns.len(),
{
    if ns.len() == 0 {
        Ok(seq![])
    } else {
        match s_decode_strs(ns.drop_last(), key) {
            Err(e) => Err(e),
            Ok(pre) => match s_child_str(ns.last()) {
                Ok(t) => Ok(pre.push(t)),
                Err(e) => Err(wrap(key, e)),
            },
        }
    }
}

/// If the first `i` nodes decode and node `i` fails with `e`, the whole
/// list fails with `e` wrapped.
pub proof fn lemma_strs_err(ns: Seq<NodeS>, key: Seq<char>, i: int, e: DecodeErrorS)
    requires
        0 <= i < ns.len(),
        s_decode_strs(ns.take(i), key) is Ok,
        s_child_str(ns[i]) == Err::<Seq<char>, DecodeErrorS>(e),
    ensures
        s_decode_strs(ns, key) == Err::<Seq<Seq<char>>, DecodeErrorS>(wrap(key, e)),
    decreases ns.len(),
{
    if ns.len() == i + 1 {
        assert(ns.take(i) =~= ns.drop_last());
        assert(ns.last() == ns[i]);
    } else {
        assert(ns.drop_last().take(i) =~= ns.take(i));
        assert(ns.drop_last()[i] == ns[i]);
        lemma_strs_err(ns.drop_last(), key, i, e);
    }
}

/// One decoded ingredient name per node, errors wrapped with "option".
pub open spec fn s_decode_options(ns: Seq<NodeS>) -> Result<Seq<IngredientNameS>, DecodeErrorS>
    decreases ns.len(),
{
    if ns.len() == 0 {
        Ok(seq![])
    } else {
        match s_decode_options(ns.drop_last()) {
            Err(e) => Err(e),
            Ok(pre) => match s_decode_name_node(ns.last()) {
                Ok(t) => Ok(pre.push(t)),
                Err(e) => Err(wrap("option"@, e)),
            },
        }
    }
}

pub proof fn lemma_options_err(ns: Seq<NodeS>, i: int, e: DecodeErrorS)
    requires
        0 <= i < ns.len(),
        s_decode_options(ns.take(i)) is Ok,
        s_decode_name_node(ns[i]) == Err::<IngredientNameS, DecodeErrorS>(e),
    ensures
        s_decode_options(ns) == Err::<Seq<IngredientNameS>, DecodeErrorS>(wrap("option"@, e)),
    decreases ns.len(),
{
    if ns.len() == i + 1 {
        assert(ns.take(i) =~= ns.drop_last());
        assert(ns.last() == ns[i]);
    } else {
        assert(ns.drop_last().take(i) =~= ns.take(i));
        assert(ns.drop_last()[i] == ns[i]);
        lemma_options_err(ns.drop_last(), i, e);
    }
}

/// One decoded measurement per node, errors wrapped with "amount".
pub open spec fn s_decode_amounts(ns: Seq<NodeS>) -> Result<Seq<MeasurementS>, DecodeErrorS>
    decreases ns.len(),
{
    if ns.len() == 0 {
        Ok(seq![])
    } else {
        match s_decode_amounts(ns.drop_last()) {
            Err(e) => Err(e),
            Ok(pre) => match s_decode_measurement_node(ns.last()) {
                Ok(t) => Ok(pre.push(t)),
                Err(e) => Err(wrap("amount"@, e)),
            },
        }
    }
}

pub proof fn lemma_amounts_err(ns: Seq<NodeS>, i: int, e: DecodeErrorS)
    requires
        0 <= i < ns.len(),
        s_decode_amounts(ns.take(i)) is Ok,
        s_decode_measurement_node(ns[i]) == Err::<MeasurementS, DecodeErrorS>(e),
    ensures
        s_decode_amounts(ns) == Err::<Seq<MeasurementS>, DecodeErrorS>(wrap("amount"@, e)),
    decreases ns.len(),
{
    if ns.len() == i + 1 {
        assert(ns.take(i) =~= ns.drop_last());
        assert(ns.last() == ns[i]);
    } else {
        assert(ns.drop_last().take(i) =~= ns.take(i));
        assert(ns.drop_last()[i] == ns[i]);
        lemma_amounts_err(ns.drop_last(), i, e);
    }
}

/// An ingredient decoded from a node: the "id" property; every "option"
/// child as a name, then the inline shorthand if it parses; every "amount"
/// child as a measurement, then the trailing shorthand if it parses; every
/// "note" child's value.  A shorthand attempt that fails contributes
/// nothing and leaves the argument stream where it began.
pub open spec fn s_decode_ingredient(n: NodeS) -> Result<IngredientS, DecodeErrorS> {
    match s_prop_str(n, "id"@) {
        Err(e) => Err(e),
        Ok(id) => match s_decode_options(named(n.children, "option"@)) {
            Err(e) => Err(e),
            Ok(opts) => {
                let names = match s_parse_name(n, 0) {
                    Ok(p) => opts.push(p.0),
                    Err(_) => opts,
                };
                let j = match s_parse_name(n, 0) {
                    Ok(p) => p.1,
                    Err(_) => 0,
                };
                match s_decode_amounts(named(n.children, "amount"@)) {
                    Err(e) => Err(e),
                    Ok(amts) => {
                        let measurements = match s_parse_measurement(n, j) {
                            Ok(p) => amts.push(p.0),
                            Err(_) => amts,
                        };
                        match s_decode_strs(named(n.children, "note"@), "note"@) {
                            Err(e) => Err(e),
                            Ok(notes) => Ok(IngredientS { id, names, measurements, notes }),
                        }
                    },
                }
            },
        },
    }
}

/// One decoded ingredient per node, errors wrapped with "ingredient".
pub open spec fn s_decode_ingredients(ns: Seq<NodeS>) -> Result<Seq<IngredientS>, DecodeErrorS>
    decreases ns.len(),
{
    if ns.len() == 0 {
        Ok(seq![])
    } else {
        match s_decode_ingredients(ns.drop_last()) {
            Err(e) => Err(e),
            Ok(pre) => match s_decode_ingredient(ns.last()) {
                Ok(t) => Ok(pre.push(t)),
                Err(e) => Err(wrap("ingredient"@, e)),
            },
        }
    }
}

pub proof fn lemma_ingredients_err(ns: Seq<NodeS>, i: int, e: DecodeErrorS)
    requires
        0 <= i < ns.len(),
        s_decode_ingredients(ns.take(i)) is Ok,
        s_decode_ingredient(ns[i]) == Err::<IngredientS, DecodeErrorS>(e),
    ensures
        s_decode_ingredients(ns) == Err::<Seq<IngredientS>, DecodeErrorS>(wrap("ingredient"@, e)),
    decreases ns.len(),
{
    if ns.len() == i + 1 {
        assert(ns.take(i) =~= ns.drop_last());
        assert(ns.last() == ns[i]);
    } else {
        assert(ns.drop_last().take(i) =~= ns.take(i));
        assert(ns.drop_last()[i] == ns[i]);
        lemma_ingredients_err(ns.drop_last(), i, e);
    }
}

/// An instruction decoded from a node: the leading positional value as the
/// description, every "ref" child's value as a referenced id.
pub open spec fn s_decode_instruction(n: NodeS) -> Result<InstructionS, DecodeErrorS> {
    if n.args.len() == 0 {
        Err(err_here(ErrorKind::MissingArgument))
    } else {
        match n.args[0] {
            ValueS::Str(d) => match s_decode_strs(named(n.children, "ref"@), "ref"@) {
                Err(e) => Err(e),
                Ok(refs) => Ok(InstructionS { description: d, ingredient_refs: refs }),
            },
            _ => Err(err_here(ErrorKind::WrongType)),
        }
    }
}

/// One decoded instruction per node, errors wrapped with "step".
pub open spec fn s_decode_steps(ns: Seq<NodeS>) -> Result<Seq<InstructionS>, DecodeErrorS>
    decreases ns.len(),
{
    if ns.len() == 0 {
        Ok(seq![])
    } else {
        match s_decode_steps(ns.drop_last()) {
            Err(e) => Err(e),
            Ok(pre) => match s_decode_instruction(ns.last()) {
                Ok(t) => Ok(pre.push(t)),
                Err(e) => Err(wrap("step"@, e)),
            },
        }
    }
}

pub proof fn lemma_steps_err(ns: Seq<NodeS>, i: int, e: DecodeErrorS)
    requires
        0 <= i < ns.len(),
        s_decode_steps(ns.take(i)) is Ok,
        s_decode_instruction(ns[i]) == Err::<InstructionS, DecodeErrorS>(e),
    ensures
        s_decode_steps(ns) == Err::<Seq<InstructionS>, DecodeErrorS>(wrap("step"@, e)),
    decreases ns.len(),
{
    if ns.len() == i + 1 {
        assert(ns.take(i) =~= ns.drop_last());
        assert(ns.last() == ns[i]);
    } else {
        assert(ns.drop_last().take(i) =~= ns.take(i));
        assert(ns.drop_last()[i] == ns[i]);
        lemma_steps_err(ns.drop_last(), i, e);
    }
}

/// The source read from a "source" child's leading string value; the
/// conversion itself never fails.
pub open spec fn s_decode_source_child(n: NodeS) -> Result<SourceS, DecodeErrorS> {
    match s_child_str(n) {
        Ok(s) => Ok(source_of(s)),
        Err(e) => Err(wrap("source"@, e)),
    }
}

/// A recipe decoded from a node: "tag", "ingredient" and "equipment"
/// children; the "step" children of a required single child named
/// "instruction" (its absence is an error even when there would be no
/// steps); and an optional single "source" child.
pub open spec fn s_decode_recipe(n: NodeS) -> Result<RecipeS, DecodeErrorS> {
    match s_decode_strs(named(n.children, "tag"@), "tag"@) {
        Err(e) => Err(e),
        Ok(tags) => match s_decode_ingredients(named(n.children, "ingredient"@)) {
            Err(e) => Err(e),
            Ok(ingredients) => match s_decode_strs(named(n.children, "equipment"@), "equipment"@) {
                Err(e) => Err(e),
                Ok(equipment) => match first_child(n.children, "instruction"@) {
                    None => Err(err_at("instruction"@, ErrorKind::MissingChild)),
                    Some(w) => match s_decode_steps(named(w.children, "step"@)) {
                        Err(e) => Err(wrap("instruction"@, e)),
                        Ok(instructions) => match first_child(n.children, "source"@) {
                            None => Ok(
                                RecipeS {
                                    tags,
                                    ingredients,
                                    equipment,
                                    instructions,
                                    source: None,
                                },
                            ),
                            Some(sc) => match s_decode_source_child(sc) {
                                Err(e) => Err(e),
                                Ok(src) => Ok(
                                    RecipeS {
                                        tags,
                                        ingredients,
                                        equipment,
                                        instructions,
                                        source: Some(src),
                                    },
                                ),
                            },
                        },
                    },
                },
            },
        },
    }
}

/// Whether a string equals a key, stated over the views.
fn str_is(a: &String, b: &str) -> (r: bool)
    ensures
        r == (a@ == b@),
{
    let t = b.to_owned();
    *a == t
}

impl Node {
    /// The value of the property named `key`; a later property with the
    /// same name shadows an earlier one.
    fn get_prop<'a>(&'a self, key: &str) -> (r: Option<&'a Value>)
        ensures
            match r {
                Some(v) => prop_lookup(self.deep().props, key@) == Some(v.deep()),
                None => prop_lookup(self.deep().props, key@) is None,
            },
    {
        let ghost ps = self.deep().props;
        let mut found: Option<&Value> = None;
        let mut i: usize = 0;
        while i < self.props.len()
            invariant
                i <= self.props.len(),
                ps == self.deep().props,
                ps.len() == self.props@.len(),
                match found {
                    Some(v) => prop_lookup(ps.take(i as int), key@) == Some(v.deep()),
                    None => prop_lookup(ps.take(i as int), key@) is None,
                },
            decreases self.props.len() - i,
        {
            proof {
                assert(ps[i as int] == self.props@[i as int].deep());
                lemma_take_step(ps, i as int);
                assert(ps.take(i as int + 1).drop_last() =~= ps.take(i as int));
                assert(ps.take(i as int + 1).last() == ps[i as int]);
            }
            if str_is(&self.props[i].name, key) {
                found = Some(&self.props[i].value);
            }
            i = i + 1;
        }
        proof {
            assert(ps.take(ps.len() as int) =~= ps);
        }
        found
    }

    /// The optional string property named `key`, as `s_prop_str`
    /// describes.
    fn get_prop_str(&self, key: &str) -> (r: Result<Option<String>, DecodeError>)
        ensures
            match r {
                Ok(o) => s_prop_str(self.deep(), key@) == Ok::<Option<Seq<char>>, DecodeErrorS>(
                    deep_opt_str(o),
                ),
                Err(e) => s_prop_str(self.deep(), key@) == Err::<Option<Seq<char>>, DecodeErrorS>(
                    e.deep(),
                ),
            },
    {
        match self.get_prop(key) {
            None => Ok(None),
            Some(v) => match v {
                Value::Str(s) => Ok(Some(s.clone())),
                _ => Err(DecodeError::new_at(key, ErrorKind::WrongType)),
            },
        }
    }

    /// The nodes of the children named `key`, in order.
    fn children_named<'a>(&'a self, key: &str) -> (r: Vec<&'a Node>)
        ensures
            Seq::new(r@.len(), |i: int| r@[i].deep()) == named(self.deep().children, key@),
    {
        let ghost cs = self.deep().children;
        proof {
            crate::tree::lemma_deep_children_index(self.children@);
        }
        let mut out: Vec<&Node> = Vec::new();
        let mut i: usize = 0;
        while i < self.children.len()
            invariant
                i <= self.children.len(),
                cs == self.deep().children,
                cs.len() == self.children@.len(),
                Seq::new(out@.len(), |k: int| out@[k].deep()) =~~= named(cs.take(i as int), key@),
            decreases self.children.len() - i,
        {
            proof {
                crate::tree::lemma_deep_children_index(self.children@);
                assert(cs[i as int] == self.children@[i as int].deep());
                lemma_take_step(cs, i as int);
                assert(cs.take(i as int + 1).drop_last() =~= cs.take(i as int));
                assert(cs.take(i as int + 1).last() == cs[i as int]);
            }
            let ghost prev = Seq::new(out@.len(), |k: int| out@[k].deep());
            if str_is(&self.children[i].name, key) {
                out.push(&self.children[i].node);
                proof {
                    assert(Seq::new(out@.len(), |k: int| out@[k].deep()) =~~= prev.push(
                        cs[i as int].node,
                    ));
                }
            }
            i = i + 1;
        }
        proof {
            assert(cs.take(cs.len() as int) =~= cs);
        }
        out
    }

    /// The node of the first child named `key`, if any.
    fn find_child<'a>(&'a self, key: &str) -> (r: Option<&'a Node>)
        ensures
            match r {
                Some(c) => first_child(self.deep().children, key@) == Some(c.deep()),
                None => first_child(self.deep().children, key@) is None,
            },
    {
        let ghost cs = self.deep().children;
        proof {
            crate::tree::lemma_deep_children_index(self.children@);
            assert(cs.skip(0) =~= cs);
        }
        let mut i: usize = 0;
        while i < self.children.len()
            invariant
                i <= self.children.len(),
                cs == self.deep().children,
                cs.len() == self.children@.len(),
                first_child(cs, key@) == first_child(cs.skip(i as int), key@),
            decreases self.children.len() - i,
        {
            proof {
                crate::tree::lemma_deep_children_index(self.children@);
                assert(cs[i as int] == self.children@[i as int].deep());
                assert(cs.skip(i as int).first() == cs[i as int]);
                assert(cs.skip(i as int).drop_first() =~= cs.skip(i as int + 1));
            }
            if str_is(&self.children[i].name, key) {
                return Some(&self.children[i].node);
            }
            i = i + 1;
        }
        proof {
            assert(cs.skip(cs.len() as int).len() == 0);
        }
        None
    }
}

impl IngredientName {
    /// Reads an ingredient name from the positional values of `node`
    /// starting at index `i`, as `s_parse_name` describes.
    fn parse_at(node: &Node, i: usize) -> (r: Result<(IngredientName, usize), DecodeError>)
        ensures
            match r {
                Ok(p) => s_parse_name(node.deep(), i as int) == Ok::<
                    (IngredientNameS, int),
                    DecodeErrorS,
                >((p.0.deep(), p.1 as int)),
                Err(e) => s_parse_name(node.deep(), i as int) == Err::<
                    (IngredientNameS, int),
                    DecodeErrorS,
                >(e.deep()),
            },
    {
        if i >= node.args.len() {
            return Err(DecodeError::new_here(ErrorKind::MissingArgument));
        }
        proof {
            assert(node.deep().args[i as int] == node.args@[i as int].deep());
        }
        match &node.args[i] {
            Value::Str(s) => {
                let name = s.clone();
                match node.get_prop_str("kind") {
                    Ok(subtype) => Ok((IngredientName { name, subtype }, i + 1)),
                    Err(e) => Err(e),
                }
            },
            _ => Err(DecodeError::new_here(ErrorKind::WrongType)),
        }
    }

    /// Decodes an ingredient name from a node, as the decoder does for
    /// each "option" child.
    pub fn from_kdl(node: &Node) -> (r: Result<IngredientName, DecodeError>)
        ensures
            match r {
                Ok(v) => s_decode_name_node(node.deep()) == Ok::<IngredientNameS, DecodeErrorS>(
                    v.deep(),
                ),
                Err(e) => s_decode_name_node(node.deep()) == Err::<IngredientNameS, DecodeErrorS>(
                    e.deep(),
                ),
            },
    {
        match Self::parse_at(node, 0) {
            Ok(p) => Ok(p.0),
            Err(e) => Err(e),
        }
    }
}

impl Measurement {
    /// Reads a measurement from the positional values of `node` starting
    /// at index `i`, as `s_parse_measurement` describes.
    fn parse_at(node: &Node, i: usize) -> (r: Result<(Measurement, usize), DecodeError>)
        ensures
            match r {
                Ok(p) => s_parse_measurement(node.deep(), i as int) == Ok::<
                    (MeasurementS, int),
                    DecodeErrorS,
                >((p.0.deep(), p.1 as int)),
                Err(e) => s_parse_measurement(node.deep(), i as int) == Err::<
                    (MeasurementS, int),
                    DecodeErrorS,
                >(e.deep()),
            },
    {
        if i >= node.args.len() {
            return Err(DecodeError::new_here(ErrorKind::MissingArgument));
        }
        proof {
            assert(node.deep().args[i as int] == node.args@[i as int].deep());
        }
        let quantity = match &node.args[i] {
            Value::Int(v) => Quantity::Whole(*v),
            Value::Float(b) => Quantity::Fraction(*b),
            Value::Str(_) => {
                return Err(DecodeError::new_here(ErrorKind::WrongType));
            },
        };
        if i + 1 >= node.args.len() {
            return Ok((Measurement { quantity, unit: None }, i + 1));
        }
        proof {
            assert(node.deep().args[i as int + 1] == node.args@[i as int + 1].deep());
        }
        match &node.args[i + 1] {
            Value::Str(u) => Ok((Measurement { quantity, unit: Some(u.clone()) }, i + 2)),
            _ => Err(DecodeError::new_here(ErrorKind::WrongType)),
        }
    }

    /// Decodes a measurement from a node, as the decoder does for each
    /// "amount" child.
    pub fn from_kdl(node: &Node) -> (r: Result<Measurement, DecodeError>)
        ensures
            match r {
                Ok(v) => s_decode_measurement_node(node.deep()) == Ok::<
                    MeasurementS,
                    DecodeErrorS,
                >(v.deep()),
                Err(e) => s_decode_measurement_node(node.deep()) == Err::<
                    MeasurementS,
                    DecodeErrorS,
                >(e.deep()),
            },
    {
        match Self::parse_at(node, 0) {
            Ok(p) => Ok(p.0),
            Err(e) => Err(e),
        }
    }
}

/// Decodes the leading string value of every child named `key`, as
/// `s_decode_strs` describes.
fn decode_str_children(node: &Node, key: &str) -> (r: Result<Vec<String>, DecodeError>)
    ensures
        match r {
            Ok(v) => s_decode_strs(named(node.deep().children, key@), key@) == Ok::<
                Seq<Seq<char>>,
                DecodeErrorS,
            >(v.deep_view()),
            Err(e) => s_decode_strs(named(node.deep().children, key@), key@) == Err::<
                Seq<Seq<char>>,
                DecodeErrorS,
            >(e.deep()),
        },
{
    let kids = node.children_named(key);
    let ghost ks = named(node.deep().children, key@);
    let mut out: Vec<String> = Vec::new();
    proof {
        assert(ks.take(0) =~= Seq::<NodeS>::empty());
        assert(out.deep_view() =~~= Seq::<Seq<char>>::empty());
    }
    let mut i: usize = 0;
    while i < kids.len()
        invariant
            i <= kids.len(),
            ks == named(node.deep().children, key@),
            Seq::new(kids@.len(), |k: int| kids@[k].deep()) == ks,
            s_decode_strs(ks.take(i as int), key@) == Ok::<Seq<Seq<char>>, DecodeErrorS>(
                out.deep_view(),
            ),
        decreases kids.len() - i,
    {
        proof {
            assert(ks[i as int] == kids@[i as int].deep());
            lemma_take_step(ks, i as int);
            assert(ks.take(i as int + 1).drop_last() =~= ks.take(i as int));
            assert(ks.take(i as int + 1).last() == ks[i as int]);
        }
        let k = kids[i];
        if k.args.len() == 0 {
            let e = DecodeError::new_here(ErrorKind::MissingArgument);
            proof {
                lemma_strs_err(ks, key@, i as int, e.deep());
            }
            return Err(e.wrapped(key));
        }
        proof {
            assert(k.deep().args[0] == k.args@[0].deep());
        }
        match &k.args[0] {
            Value::Str(s) => {
                let ghost prev = out.deep_view();
                out.push(s.clone());
                proof {
                    assert(out.deep_view() =~~= prev.push(s@));
                }
            },
            _ => {
                let e = DecodeError::new_here(ErrorKind::WrongType);
                proof {
                    lemma_strs_err(ks, key@, i as int, e.deep());
                }
                return Err(e.wrapped(key));
            },
        }
        i = i + 1;
    }
    proof {
        assert(ks.take(ks.len() as int) =~= ks);
    }
    Ok(out)
}

/// Decodes every "option" child, as `s_decode_options` describes.
fn decode_options(node: &Node) -> (r: Result<Vec<IngredientName>, DecodeError>)
    ensures
        match r {
            Ok(v) => s_decode_options(named(node.deep().children, "option"@)) == Ok::<
                Seq<IngredientNameS>,
                DecodeErrorS,
            >(Seq::new(v@.len(), |k: int| v@[k].deep())),
            Err(e) => s_decode_options(named(node.deep().children, "option"@)) == Err::<
                Seq<IngredientNameS>,
                DecodeErrorS,
            >(e.deep()),
        },
{
    let kids = node.children_named("option");
    let ghost ks = named(node.deep().children, "option"@);
    let mut out: Vec<IngredientName> = Vec::new();
    proof {
        assert(ks.take(0) =~= Seq::<NodeS>::empty());
        assert(Seq::new(out@.len(), |k: int| out@[k].deep()) =~~= Seq::<IngredientNameS>::empty());
    }
    let mut i: usize = 0;
    while i < kids.len()
        invariant
            i <= kids.len(),
            ks == named(node.deep().children, "option"@),
            Seq::new(kids@.len(), |k: int| kids@[k].deep()) == ks,
            s_decode_options(ks.take(i as int)) == Ok::<Seq<IngredientNameS>, DecodeErrorS>(
                Seq::new(out@.len(), |k: int| out@[k].deep()),
            ),
        decreases kids.len() - i,
    {
        proof {
            assert(ks[i as int] == kids@[i as int].deep());
            lemma_take_step(ks, i as int);
            assert(ks.take(i as int + 1).drop_last() =~= ks.take(i as int));
            assert(ks.take(i as int + 1).last() == ks[i as int]);
        }
        match IngredientName::from_kdl(kids[i]) {
            Ok(nm) => {
                let ghost prev = Seq::new(out@.len(), |k: int| out@[k].deep());
                let ghost nm_s = nm.deep();
                out.push(nm);
                proof {
                    assert(Seq::new(out@.len(), |k: int| out@[k].deep()) =~~= prev.push(nm_s));
                }
            },
            Err(e) => {
                proof {
                    lemma_options_err(ks, i as int, e.deep());
                }
                return Err(e.wrapped("option"));
            },
        }
        i = i + 1;
    }
    proof {
        assert(ks.take(ks.len() as int) =~= ks);
    }
    Ok(out)
}

/// Decodes every "amount" child, as `s_decode_amounts` describes.
fn decode_amounts(node: &Node) -> (r: Result<Vec<Measurement>, DecodeError>)
    ensures
        match r {
            Ok(v) => s_decode_amounts(named(node.deep().children, "amount"@)) == Ok::<
                Seq<MeasurementS>,
                DecodeErrorS,
            >(Seq::new(v@.len(), |k: int| v@[k].deep())),
            Err(e) => s_decode_amounts(named(node.deep().children, "amount"@)) == Err::<
                Seq<MeasurementS>,
                DecodeErrorS,
            >(e.deep()),
        },
{
    let kids = node.children_named("amount");
    let ghost ks = named(node.deep().children, "amount"@);
    let mut out: Vec<Measurement> = Vec::new();
    proof {
        assert(ks.take(0) =~= Seq::<NodeS>::empty());
        assert(Seq::new(out@.len(), |k: int| out@[k].deep()) =~~= Seq::<MeasurementS>::empty());
    }
    let mut i: usize = 0;
    while i < kids.len()
        invariant
            i <= kids.len(),
            ks == named(node.deep().children, "amount"@),
            Seq::new(kids@.len(), |k: int| kids@[k].deep()) == ks,
            s_decode_amounts(ks.take(i as int)) == Ok::<Seq<MeasurementS>, DecodeErrorS>(
                Seq::new(out@.len(), |k: int| out@[k].deep()),
            ),
        decreases kids.len() - i,
    {
        proof {
            assert(ks[i as int] == kids@[i as int].deep());
            lemma_take_step(ks, i as int);
            assert(ks.take(i as int + 1).drop_last() =~= ks.take(i as int));
            assert(ks.take(i as int + 1).last() == ks[i as int]);
        }
        match Measurement::from_kdl(kids[i]) {
            Ok(m) => {
                let ghost prev = Seq::new(out@.len(), |k: int| out@[k].deep());
                let ghost m_s = m.deep();
                out.push(m);
                proof {
                    assert(Seq::new(out@.len(), |k: int| out@[k].deep()) =~~= prev.push(m_s));
                }
            },
            Err(e) => {
                proof {
                    lemma_amounts_err(ks, i as int, e.deep());
                }
                return Err(e.wrapped("amount"));
            },
        }
        i = i + 1;
    }
    proof {
        assert(ks.take(ks.len() as int) =~= ks);
    }
    Ok(out)
}

impl Ingredient {
    /// Decodes an ingredient from a node.
    pub fn from_kdl(node: &Node) -> (r: Result<Ingredient, DecodeError>)
        ensures
            match r {
                Ok(v) => s_decode_ingredient(node.deep()) == Ok::<IngredientS, DecodeErrorS>(
                    v.deep(),
                ),
                Err(e) => s_decode_ingredient(node.deep()) == Err::<IngredientS, DecodeErrorS>(
                    e.deep(),
                ),
            },
    {
        let id = match node.get_prop_str("id") {
            Ok(o) => o,
            Err(e) => {
                return Err(e);
            },
        };
        let mut names = match decode_options(node) {
            Ok(v) => v,
            Err(e) => {
                return Err(e);
            },
        };
        let ghost opts = Seq::new(names@.len(), |k: int| names@[k].deep());
        let mut j: usize = 0;
        match IngredientName::parse_at(node, 0) {
            Ok(p) => {
                let ghost prev = Seq::new(names@.len(), |k: int| names@[k].deep());
                let ghost nm_s = p.0.deep();
                j = p.1;
                names.push(p.0);
                proof {
                    assert(Seq::new(names@.len(), |k: int| names@[k].deep()) =~~= prev.push(
                        nm_s,
                    ));
                }
            },
            Err(_) => {},
        }
        let mut measurements = match decode_amounts(node) {
            Ok(v) => v,
            Err(e) => {
                return Err(e);
            },
        };
        let ghost amts = Seq::new(measurements@.len(), |k: int| measurements@[k].deep());
        match Measurement::parse_at(node, j) {
            Ok(p) => {
                let ghost prev = Seq::new(measurements@.len(), |k: int| measurements@[k].deep());
                let ghost m_s = p.0.deep();
                measurements.push(p.0);
                proof {
                    assert(Seq::new(measurements@.len(), |k: int| measurements@[k].deep())
                        =~~= prev.push(m_s));
                }
            },
            Err(_) => {},
        }
        let notes = match decode_str_children(node, "note") {
            Ok(v) => v,
            Err(e) => {
                return Err(e);
            },
        };
        let ing = Ingredient { id, names, measurements, notes };
        proof {
            assert(s_decode_ingredient(node.deep()) == Ok::<IngredientS, DecodeErrorS>(
                ing.deep(),
            ));
        }
        Ok(ing)
    }
}

/// Decodes every "step" child of a node, as `s_decode_steps` describes.
fn decode_steps(node: &Node) -> (r: Result<Vec<Instruction>, DecodeError>)
    ensures
        match r {
            Ok(v) => s_decode_steps(named(node.deep().children, "step"@)) == Ok::<
                Seq<InstructionS>,
                DecodeErrorS,
            >(Seq::new(v@.len(), |k: int| v@[k].deep())),
            Err(e) => s_decode_steps(named(node.deep().children, "step"@)) == Err::<
                Seq<InstructionS>,
                DecodeErrorS,
            >(e.deep()),
        },
{
    let kids = node.children_named("step");
    let ghost ks = named(node.deep().children, "step"@);
    let mut out: Vec<Instruction> = Vec::new();
    proof {
        assert(ks.take(0) =~= Seq::<NodeS>::empty());
        assert(Seq::new(out@.len(), |k: int| out@[k].deep()) =~~= Seq::<InstructionS>::empty());
    }
    let mut i: usize = 0;
    while i < kids.len()
        invariant
            i <= kids.len(),
            ks == named(node.deep().children, "step"@),
            Seq::new(kids@.len(), |k: int| kids@[k].deep()) == ks,
            s_decode_steps(ks.take(i as int)) == Ok::<Seq<InstructionS>, DecodeErrorS>(
                Seq::new(out@.len(), |k: int| out@[k].deep()),
            ),
        decreases kids.len() - i,
    {
        proof {
            assert(ks[i as int] == kids@[i as int].deep());
            lemma_take_step(ks, i as int);
            assert(ks.take(i as int + 1).drop_last() =~= ks.take(i as int));
            assert(ks.take(i as int + 1).last() == ks[i as int]);
        }
        match Instruction::from_kdl(kids[i]) {
            Ok(ins) => {
                let ghost prev = Seq::new(out@.len(), |k: int| out@[k].deep());
                let ghost ins_s = ins.deep();
                out.push(ins);
                proof {
                    assert(Seq::new(out@.len(), |k: int| out@[k].deep()) =~~= prev.push(ins_s));
                }
            },
            Err(e) => {
                proof {
                    lemma_steps_err(ks, i as int, e.deep());
                }
                return Err(e.wrapped("step"));
            },
        }
        i = i + 1;
    }
    proof {
        assert(ks.take(ks.len() as int) =~= ks);
    }
    Ok(out)
}

/// Decodes every "ingredient" child of a node, as `s_decode_ingredients`
/// describes.
fn decode_ingredients(node: &Node) -> (r: Result<Vec<Ingredient>, DecodeError>)
    ensures
        match r {
            Ok(v) => s_decode_ingredients(named(node.deep().children, "ingredient"@)) == Ok::<
                Seq<IngredientS>,
                DecodeErrorS,
            >(Seq::new(v@.len(), |k: int| v@[k].deep())),
            Err(e) => s_decode_ingredients(named(node.deep().children, "ingredient"@)) == Err::<
                Seq<IngredientS>,
                DecodeErrorS,
            >(e.deep()),
        },
{
    let kids = node.children_named("ingredient");
    let ghost ks = named(node.deep().children, "ingredient"@);
    let mut out: Vec<Ingredient> = Vec::new();
    proof {
        assert(ks.take(0) =~= Seq::<NodeS>::empty());
        assert(Seq::new(out@.len(), |k: int| out@[k].deep()) =~~= Seq::<IngredientS>::empty());
    }
    let mut i: usize = 0;
    while i < kids.len()
        invariant
            i <= kids.len(),
            ks == named(node.deep().children, "ingredient"@),
            Seq::new(kids@.len(), |k: int| kids@[k].deep()) == ks,
            s_decode_ingredients(ks.take(i as int)) == Ok::<Seq<IngredientS>, DecodeErrorS>(
                Seq::new(out@.len(), |k: int| out@[k].deep()),
            ),
        decreases kids.len() - i,
    {
        proof {
            assert(ks[i as int] == kids@[i as int].deep());
            lemma_take_step(ks, i as int);
            assert(ks.take(i as int + 1).drop_last() =~= ks.take(i as int));
            assert(ks.take(i as int + 1).last() == ks[i as int]);
        }
        match Ingredient::from_kdl(kids[i]) {
            Ok(ing) => {
                let ghost prev = Seq::new(out@.len(), |k: int| out@[k].deep());
                let ghost ing_s = ing.deep();
                out.push(ing);
                proof {
                    assert(Seq::new(out@.len(), |k: int| out@[k].deep()) =~~= prev.push(ing_s));
                }
            },
            Err(e) => {
                proof {
                    lemma_ingredients_err(ks, i as int, e.deep());
                }
                return Err(e.wrapped("ingredient"));
            },
        }
        i = i + 1;
    }
    proof {
        assert(ks.take(ks.len() as int) =~= ks);
    }
    Ok(out)
}

impl Instruction {
    /// Decodes an instruction from a node.
    pub fn from_kdl(node: &Node) -> (r: Result<Instruction, DecodeError>)
        ensures
            match r {
                Ok(v) => s_decode_instruction(node.deep()) == Ok::<InstructionS, DecodeErrorS>(
                    v.deep(),
                ),
                Err(e) => s_decode_instruction(node.deep()) == Err::<InstructionS, DecodeErrorS>(
                    e.deep(),
                ),
            },
    {
        if node.args.len() == 0 {
            return Err(DecodeError::new_here(ErrorKind::MissingArgument));
        }
        proof {
            assert(node.deep().args[0] == node.args@[0].deep());
        }
        match &node.args[0] {
            Value::Str(d) => {
                let description = d.clone();
                match decode_str_children(node, "ref") {
                    Ok(refs) => Ok(Instruction { description, ingredient_refs: refs }),
                    Err(e) => Err(e),
                }
            },
            _ => Err(DecodeError::new_here(ErrorKind::WrongType)),
        }
    }
}

impl Recipe {
    /// Decodes a recipe from a node.
    pub fn from_kdl(node: &Node) -> (r: Result<Recipe, DecodeError>)
        ensures
            match r {
                Ok(v) => s_decode_recipe(node.deep()) == Ok::<RecipeS, DecodeErrorS>(v.deep()),
                Err(e) => s_decode_recipe(node.deep()) == Err::<RecipeS, DecodeErrorS>(e.deep()),
            },
    {
        let tags = match decode_str_children(node, "tag") {
            Ok(v) => v,
            Err(e) => {
                return Err(e);
            },
        };
        let ingredients = match decode_ingredients(node) {
            Ok(v) => v,
            Err(e) => {
                return Err(e);
            },
        };
        let equipment = match decode_str_children(node, "equipment") {
            Ok(v) => v,
            Err(e) => {
                return Err(e);
            },
        };
        let instructions = match node.find_child("instruction") {
            None => {
                return Err(DecodeError::new_at("instruction", ErrorKind::MissingChild));
            },
            Some(w) => match decode_steps(w) {
                Ok(v) => v,
                Err(e) => {
                    return Err(e.wrapped("instruction"));
                },
            },
        };
        let source = match node.find_child("source") {
            None => None,
            Some(sc) => {
                if sc.args.len() == 0 {
                    return Err(
                        DecodeError::new_here(ErrorKind::MissingArgument).wrapped("source"),
                    );
                }
                proof {
                    assert(sc.deep().args[0] == sc.args@[0].deep());
                }
                match &sc.args[0] {
                    Value::Str(s) => Some(Source::from_str(s.as_str())),
                    _ => {
                        return Err(
                            DecodeError::new_here(ErrorKind::WrongType).wrapped("source"),
                        );
                    },
                }
            },
        };
        let rec = Recipe { tags, ingredients, equipment, instructions, source };
        proof {
            assert(s_decode_recipe(node.deep()) == Ok::<RecipeS, DecodeErrorS>(rec.deep()));
        }
        Ok(rec)
    }
}

} // verus!
