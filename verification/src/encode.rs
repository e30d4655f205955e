//! The encoder: one routine per model type, producing a tree node from a
//! model value.  Encoding is total and canonical: exactly one name or one
//! measurement of an ingredient is inlined onto the ingredient node itself,
//! any other number becomes explicit "option" or "amount" children; a whole
//! quantity is written as an integer token, any other as a floating-point
//! token; empty optional values are omitted entirely.

use vstd::prelude::*;

use crate::model::Ingredient;
use crate::model::IngredientName;
use crate::model::IngredientNameS;
use crate::model::IngredientS;
use crate::model::Instruction;
use crate::model::InstructionS;
use crate::model::Measurement;
use crate::model::MeasurementS;
use crate::model::Quantity;
use crate::model::QuantityS;
use crate::model::Recipe;
use crate::model::RecipeS;
use crate::source::render_source;
use crate::tree::deep_children;
use crate::tree::Child;
use crate::tree::ChildS;
use crate::tree::Node;
use crate::tree::NodeS;
use crate::tree::Prop;
use crate::tree::PropS;
use crate::tree::Value;
use crate::tree::ValueS;

verus! {

/// A node holding a single string value and nothing else.
pub open spec fn leaf_str(s: Seq<char>) -> NodeS {
    NodeS { args: seq![ValueS::Str(s)], props: seq![], children: seq![] }
}

/// The token a quantity is written as: an integer token for a whole
/// quantity, a floating-point token otherwise.
pub open spec fn quantity_value(q: QuantityS) -> ValueS {
    match q {
        QuantityS::Whole(i) => ValueS::Int(i),
        QuantityS::Fraction(b) => ValueS::Float(b),
    }
}

pub open spec fn s_encode_name(nm: IngredientNameS) -> NodeS {
    NodeS {
        args: seq![ValueS::Str(nm.name)],
        props: match nm.subtype {
            Some(s) => if s.len() > 0 {
                seq![PropS { name: "kind"@, value: ValueS::Str(s) }]
            } else {
                seq![]
            },
            None => seq![],
        },
        children: seq![],
    }
}

pub open spec fn s_encode_measurement(m: MeasurementS) -> NodeS {
    NodeS {
        args: seq![quantity_value(m.quantity)] + (match m.unit {
            Some(u) => if u.len() > 0 {
                seq![ValueS::Str(u)]
            } else {
                seq![]
            },
            None => seq![],
        }),
        props: seq![],
        children: seq![],
    }
}

/// One child named `key` per string, each holding the string as its value.
pub open spec fn str_children(key: Seq<char>, items: Seq<Seq<char>>) -> Seq<ChildS>
    decreases items.len(),
{
    if items.len() == 0 {
        seq![]
    } else {
        str_children(key, items.drop_last()).push(
            ChildS { name: key, node: leaf_str(items.last()) },
        )
    }
}

/// One "option" child per name.
pub open spec fn name_children(names: Seq<IngredientNameS>) -> Seq<ChildS>
    decreases names.len(),
{
    if names.len() == 0 {
        seq![]
    } else {
        name_children(names.drop_last()).push(
            ChildS { name: "option"@, node: s_encode_name(names.last()) },
        )
    }
}

/// One "amount" child per measurement.
pub open spec fn amount_children(ms: Seq<MeasurementS>) -> Seq<ChildS>
    decreases ms.len(),
{
    if ms.len() == 0 {
        seq![]
    } else {
        amount_children(ms.drop_last()).push(
            ChildS { name: "amount"@, node: s_encode_measurement(ms.last()) },
        )
    }
}

pub open spec fn s_encode_ingredient(ing: IngredientS) -> NodeS {
    let name_node = if ing.names.len() == 1 {
        s_encode_name(ing.names[0])
    } else {
        NodeS { args: seq![], props: seq![], children: seq![] }
    };
    let opt_children = if ing.names.len() == 1 {
        seq![]
    } else {
        name_children(ing.names)
    };
    let meas_args = if ing.measurements.len() == 1 {
        s_encode_measurement(ing.measurements[0]).args
    } else {
        seq![]
    };
    let amt_children = if ing.measurements.len() == 1 {
        seq![]
    } else {
        amount_children(ing.measurements)
    };
    let id_props: Seq<PropS> = match ing.id {
        Some(s) => if s.len() > 0 {
            seq![PropS { name: "id"@, value: ValueS::Str(s) }]
        } else {
            seq![]
        },
        None => seq![],
    };
    NodeS {
        args: name_node.args + meas_args,
        props: name_node.props + id_props,
        children: opt_children + amt_children + str_children("note"@, ing.notes),
    }
}

pub open spec fn s_encode_instruction(ins: InstructionS) -> NodeS {
    NodeS {
        args: seq![ValueS::Str(ins.description)],
        props: seq![],
        children: str_children("ref"@, ins.ingredient_refs),
    }
}

/// One "ingredient" child per ingredient.
pub open spec fn ingredient_children(is: Seq<IngredientS>) -> Seq<ChildS>
    decreases is.len(),
{
    if is.len() == 0 {
        seq![]
    } else {
        ingredient_children(is.drop_last()).push(
            ChildS { name: "ingredient"@, node: s_encode_ingredient(is.last()) },
        )
    }
}

/// One "step" child per instruction.
pub open spec fn step_children(ins: Seq<InstructionS>) -> Seq<ChildS>
    decreases ins.len(),
{
    if ins.len() == 0 {
        seq![]
    } else {
        step_children(ins.drop_last()).push(
            ChildS { name: "step"@, node: s_encode_instruction(ins.last()) },
        )
    }
}

pub open spec fn s_encode_recipe(r: RecipeS) -> NodeS {
    NodeS {
        args: seq![],
        props: seq![],
        children: str_children("tag"@, r.tags) + ingredient_children(r.ingredients)
            + str_children("equipment"@, r.equipment) + seq![
            ChildS {
                name: "instructions"@,
                node: NodeS { args: seq![], props: seq![], children: step_children(
                    r.instructions,
                ) },
            },
        ] + (match r.source {
            Some(src) => if render_source(src).len() > 0 {
                seq![ChildS { name: "source"@, node: leaf_str(render_source(src)) }]
            } else {
                seq![]
            },
            None => seq![],
        }),
    }
}

/// Builds the node that `leaf_str` describes.
fn leaf(s: &String) -> (n: Node)
    ensures
        n.deep() == leaf_str(s@),
{
    let mut args: Vec<Value> = Vec::new();
    args.push(Value::Str(s.clone()));
    let n = Node { args, props: Vec::new(), children: Vec::new() };
    proof {
        assert(n.deep().args =~~= leaf_str(s@).args);
        assert(n.deep().props =~~= leaf_str(s@).props);
        assert(n.deep().children =~~= leaf_str(s@).children);
    }
    n
}

/// Appends one child named `key` per string, as `str_children` describes.
fn push_str_children(children: &mut Vec<Child>, key: &str, items: &Vec<String>)
    ensures
        deep_children(final(children)@) == deep_children(old(children)@) + str_children(
            key@,
            items.deep_view(),
        ),
{
    let ghost base = deep_children(children@);
    let ghost items_s = items.deep_view();
    let mut i: usize = 0;
    while i < items.len()
        invariant
            i <= items.len(),
            items.deep_view() == items_s,
            deep_children(children@) =~~= base + str_children(key@, items_s.take(i as int)),
        decreases items.len() - i,
    {
        let c = Child { name: key.to_owned(), node: leaf(&items[i]) };
        proof {
            assert(c.deep() == ChildS { name: key@, node: leaf_str(items_s[i as int]) });
        }
        let ghost prev = children@;
        children.push(c);
        proof {
            assert(children@.drop_last() =~~= prev);
            assert(items_s.take(i as int + 1).drop_last() =~~= items_s.take(i as int));
            assert(items_s.take(i as int + 1).last() == items_s[i as int]);
            assert(deep_children(children@) =~~= base + str_children(
                key@,
                items_s.take(i as int + 1),
            ));
        }
        i = i + 1;
    }
    proof {
        assert(items_s.take(items_s.len() as int) =~~= items_s);
    }
}

impl IngredientName {
    /// Encodes the name: its positional value, and a "kind" property only
    /// if a non-empty subtype is present.
    pub fn as_kdl(&self) -> (n: Node)
        ensures
            n.deep() == s_encode_name(self.deep()),
    {
        let mut args: Vec<Value> = Vec::new();
        args.push(Value::Str(self.name.clone()));
        let mut props: Vec<Prop> = Vec::new();
        match &self.subtype {
            Some(s) => {
                if !s.as_str().is_empty() {
                    props.push(Prop { name: "kind".to_owned(), value: Value::Str(s.clone()) });
                }
            },
            None => {},
        }
        let n = Node { args, props, children: Vec::new() };
        proof {
            assert(n.deep().args =~~= s_encode_name(self.deep()).args);
            assert(n.deep().props =~~= s_encode_name(self.deep()).props);
            assert(n.deep().children =~~= s_encode_name(self.deep()).children);
        }
        n
    }
}

impl Measurement {
    /// Encodes the measurement: the quantity as an integer token when
    /// whole, else as a floating-point token, then the unit only if a
    /// non-empty one is present.
    pub fn as_kdl(&self) -> (n: Node)
        ensures
            n.deep() == s_encode_measurement(self.deep()),
    {
        let mut args: Vec<Value> = Vec::new();
        match self.quantity {
            Quantity::Whole(i) => args.push(Value::Int(i)),
            Quantity::Fraction(b) => args.push(Value::Float(b)),
        }
        match &self.unit {
            Some(u) => {
                if !u.as_str().is_empty() {
                    args.push(Value::Str(u.clone()));
                }
            },
            None => {},
        }
        let n = Node { args, props: Vec::new(), children: Vec::new() };
        proof {
            assert(n.deep().args =~~= s_encode_measurement(self.deep()).args);
            assert(n.deep().props =~~= s_encode_measurement(self.deep()).props);
            assert(n.deep().children =~~= s_encode_measurement(self.deep()).children);
        }
        n
    }
}

impl Ingredient {
    /// Encodes the ingredient.  Exactly one name is inlined onto the node
    /// itself, any other number becomes "option" children; likewise for
    /// measurements and "amount" children; the "id" property and the
    /// "note" children are appended after.
    pub fn as_kdl(&self) -> (n: Node)
        ensures
            n.deep() == s_encode_ingredient(self.deep()),
    {
        let ghost ing = self.deep();
        let mut args: Vec<Value> = Vec::new();
        let mut props: Vec<Prop> = Vec::new();
        let mut children: Vec<Child> = Vec::new();
        if self.names.len() == 1 {
            let nn = self.names[0].as_kdl();
            let mut nn_args = nn.args;
            let mut nn_props = nn.props;
            args.append(&mut nn_args);
            props.append(&mut nn_props);
        } else {
            let ghost names_s = ing.names;
            let mut i: usize = 0;
            while i < self.names.len()
                invariant
                    i <= self.names.len(),
                    Seq::new(self.names@.len(), |k: int| self.names@[k].deep()) == names_s,
                    args@.len() == 0,
                    props@.len() == 0,
                    deep_children(children@) =~~= name_children(names_s.take(i as int)),
                decreases self.names.len() - i,
            {
                let c = Child { name: "option".to_owned(), node: self.names[i].as_kdl() };
                proof {
                    assert(self.names@[i as int].deep() == names_s[i as int]);
                    assert(c.deep() == ChildS {
                        name: "option"@,
                        node: s_encode_name(names_s[i as int]),
                    });
                }
                let ghost prev = children@;
                children.push(c);
                proof {
                    assert(children@.drop_last() =~~= prev);
                    assert(names_s.take(i as int + 1).drop_last() =~~= names_s.take(i as int));
                    assert(names_s.take(i as int + 1).last() == names_s[i as int]);
                    assert(deep_children(children@) =~~= name_children(
                        names_s.take(i as int + 1),
                    ));
                }
                i = i + 1;
            }
            proof {
                assert(names_s.take(names_s.len() as int) =~~= names_s);
            }
        }
        let ghost args_after_names = args@;
        let ghost props_after_names = props@;
        let ghost children_after_names = children@;
        if self.measurements.len() == 1 {
            let mn = self.measurements[0].as_kdl();
            let mut mn_args = mn.args;
            args.append(&mut mn_args);
        } else {
            let ghost ms_s = ing.measurements;
            let mut i: usize = 0;
            while i < self.measurements.len()
                invariant
                    i <= self.measurements.len(),
                    Seq::new(self.measurements@.len(), |k: int| self.measurements@[k].deep())
                        == ms_s,
                    args@ == args_after_names,
                    props@ == props_after_names,
                    deep_children(children@) =~~= deep_children(children_after_names)
                        + amount_children(ms_s.take(i as int)),
                decreases self.measurements.len() - i,
            {
                let c = Child { name: "amount".to_owned(), node: self.measurements[i].as_kdl() };
                proof {
                    assert(self.measurements@[i as int].deep() == ms_s[i as int]);
                    assert(c.deep() == ChildS {
                        name: "amount"@,
                        node: s_encode_measurement(ms_s[i as int]),
                    });
                }
                let ghost prev = children@;
                children.push(c);
                proof {
                    assert(children@.drop_last() =~~= prev);
                    assert(ms_s.take(i as int + 1).drop_last() =~~= ms_s.take(i as int));
                    assert(ms_s.take(i as int + 1).last() == ms_s[i as int]);
                    assert(deep_children(children@) =~~= deep_children(children_after_names)
                        + amount_children(ms_s.take(i as int + 1)));
                }
                i = i + 1;
            }
            proof {
                assert(ms_s.take(ms_s.len() as int) =~~= ms_s);
            }
        }
        match &self.id {
            Some(s) => {
                if !s.as_str().is_empty() {
                    props.push(Prop { name: "id".to_owned(), value: Value::Str(s.clone()) });
                }
            },
            None => {},
        }
        let ghost children_before_notes = children@;
        push_str_children(&mut children, "note", &self.notes);
        let n = Node { args, props, children };
        proof {
            assert(n.deep().args =~~= s_encode_ingredient(ing).args);
            assert(n.deep().props =~~= s_encode_ingredient(ing).props);
            assert(n.deep().children =~~= s_encode_ingredient(ing).children);
        }
        n
    }
}

impl Instruction {
    /// Encodes the instruction: its description as the positional value,
    /// then one "ref" child per referenced id, in order.
    pub fn as_kdl(&self) -> (n: Node)
        ensures
            n.deep() == s_encode_instruction(self.deep()),
    {
        let mut args: Vec<Value> = Vec::new();
        args.push(Value::Str(self.description.clone()));
        let mut children: Vec<Child> = Vec::new();
        push_str_children(&mut children, "ref", &self.ingredient_refs);
        let n = Node { args, props: Vec::new(), children };
        proof {
            assert(n.deep().args =~~= s_encode_instruction(self.deep()).args);
            assert(n.deep().props =~~= s_encode_instruction(self.deep()).props);
            assert(n.deep().children =~~= s_encode_instruction(self.deep()).children);
        }
        n
    }
}

impl Recipe {
    /// Encodes the recipe: "tag", "ingredient" and "equipment" children,
    /// one "instructions" wrapper holding a "step" child per instruction
    /// (emitted even when there are no steps), and a "source" child only
    /// when a source with a non-empty rendering is present.
    pub fn as_kdl(&self) -> (n: Node)
        ensures
            n.deep() == s_encode_recipe(self.deep()),
    {
        let ghost r = self.deep();
        let mut children: Vec<Child> = Vec::new();
        proof {
            assert(deep_children(children@) =~~= Seq::<ChildS>::empty());
        }
        push_str_children(&mut children, "tag", &self.tags);
        let ghost after_tags = children@;
        {
            let ghost is_s = r.ingredients;
            let mut i: usize = 0;
            while i < self.ingredients.len()
                invariant
                    i <= self.ingredients.len(),
                    Seq::new(self.ingredients@.len(), |k: int| self.ingredients@[k].deep())
                        == is_s,
                    deep_children(children@) =~~= deep_children(after_tags)
                        + ingredient_children(is_s.take(i as int)),
                decreases self.ingredients.len() - i,
            {
                let c = Child {
                    name: "ingredient".to_owned(),
                    node: self.ingredients[i].as_kdl(),
                };
                proof {
                    assert(self.ingredients@[i as int].deep() == is_s[i as int]);
                    assert(c.deep() == ChildS {
                        name: "ingredient"@,
                        node: s_encode_ingredient(is_s[i as int]),
                    });
                }
                let ghost prev = children@;
                children.push(c);
                proof {
                    assert(children@.drop_last() =~~= prev);
                    assert(is_s.take(i as int + 1).drop_last() =~~= is_s.take(i as int));
                    assert(is_s.take(i as int + 1).last() == is_s[i as int]);
                    assert(deep_children(children@) =~~= deep_children(after_tags)
                        + ingredient_children(is_s.take(i as int + 1)));
                }
                i = i + 1;
            }
            proof {
                assert(is_s.take(is_s.len() as int) =~~= is_s);
            }
        }
        push_str_children(&mut children, "equipment", &self.equipment);
        let ghost after_equipment = children@;
        {
            let mut steps: Vec<Child> = Vec::new();
            let ghost ins_s = r.instructions;
            let mut i: usize = 0;
            while i < self.instructions.len()
                invariant
                    i <= self.instructions.len(),
                    Seq::new(self.instructions@.len(), |k: int| self.instructions@[k].deep())
                        == ins_s,
                    deep_children(steps@) =~~= step_children(ins_s.take(i as int)),
                decreases self.instructions.len() - i,
            {
                let c = Child { name: "step".to_owned(), node: self.instructions[i].as_kdl() };
                proof {
                    assert(self.instructions@[i as int].deep() == ins_s[i as int]);
                    assert(c.deep() == ChildS {
                        name: "step"@,
                        node: s_encode_instruction(ins_s[i as int]),
                    });
                }
                let ghost prev = steps@;
                steps.push(c);
                proof {
                    assert(steps@.drop_last() =~~= prev);
                    assert(ins_s.take(i as int + 1).drop_last() =~~= ins_s.take(i as int));
                    assert(ins_s.take(i as int + 1).last() == ins_s[i as int]);
                    assert(deep_children(steps@) =~~= step_children(ins_s.take(i as int + 1)));
                }
                i = i + 1;
            }
            proof {
                assert(ins_s.take(ins_s.len() as int) =~~= ins_s);
            }
            let wrapper = Node { args: Vec::new(), props: Vec::new(), children: steps };
            let c = Child { name: "instructions".to_owned(), node: wrapper };
            proof {
                assert(c.node.args@.len() == 0);
                assert(c.node.props@.len() == 0);
                assert(c.node.deep().args =~~= Seq::<ValueS>::empty());
                assert(c.node.deep().props =~~= Seq::<PropS>::empty());
                assert(c.node.deep().children =~~= step_children(r.instructions));
                assert(c.deep() =~~= ChildS {
                    name: "instructions"@,
                    node: NodeS { args: seq![], props: seq![], children: step_children(
                        r.instructions,
                    ) },
                });
            }
            let ghost prev = children@;
            children.push(c);
            proof {
                assert(children@.drop_last() =~~= prev);
                assert(deep_children(children@) =~~= deep_children(prev) + seq![
                    ChildS {
                        name: "instructions"@,
                        node: NodeS { args: seq![], props: seq![], children: step_children(
                            r.instructions,
                        ) },
                    },
                ]);
            }
        }
        let ghost after_instructions = children@;
        match &self.source {
            Some(src) => {
                let rendering = src.to_string();
                if !rendering.as_str().is_empty() {
                    let c = Child { name: "source".to_owned(), node: leaf(&rendering) };
                    proof {
                        assert(c.deep() =~~= ChildS {
                            name: "source"@,
                            node: leaf_str(render_source(src.deep())),
                        });
                    }
                    let ghost prev = children@;
                    children.push(c);
                    proof {
                        assert(children@.drop_last() =~~= prev);
                        assert(deep_children(children@) =~~= deep_children(prev) + seq![
                            ChildS {
                                name: "source"@,
                                node: leaf_str(render_source(src.deep())),
                            },
                        ]);
                    }
                }
            },
            None => {},
        }
        let n = Node { args: Vec::new(), props: Vec::new(), children };
        proof {
            assert(n.deep().args =~~= s_encode_recipe(r).args);
            assert(n.deep().props =~~= s_encode_recipe(r).props);
            assert(n.deep().children =~~= s_encode_recipe(r).children);
        }
        n
    }
}

} // verus!
