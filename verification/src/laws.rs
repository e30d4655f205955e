//! Round-trip laws of the codec.
//!
//! The encoder picks exactly one shape per logical value, and the decoder
//! accepts it back: for every model value whose optional strings are not
//! present-but-empty (the encoder omits an empty optional entirely, so it
//! cannot survive a round trip), decoding what the encoder produced yields
//! the value again.  This holds for names, measurements, instructions and
//! ingredients.  A whole recipe document produced by the encoder, however,
//! never decodes: the decoder requires a child named "instruction" while
//! the encoder writes the wrapper as "instructions"; both shapes are kept
//! as they are, and the recipe-level law records that no decoded value
//! ever comes out of an encoded document.

use vstd::prelude::*;

use crate::decode::s_decode_amounts;
use crate::decode::s_decode_ingredient;
use crate::decode::s_decode_instruction;
use crate::decode::s_decode_options;
use crate::decode::s_decode_recipe;
use crate::decode::s_decode_strs;
use crate::decode::s_child_str;
use crate::decode::s_parse_measurement;
use crate::decode::s_parse_name;
use crate::decode::s_prop_str;
use crate::encode::amount_children;
use crate::encode::ingredient_children;
use crate::encode::leaf_str;
use crate::encode::name_children;
use crate::encode::s_encode_ingredient;
use crate::encode::s_encode_instruction;
use crate::encode::s_encode_measurement;
use crate::encode::s_encode_name;
use crate::encode::s_encode_recipe;
use crate::encode::step_children;
use crate::encode::str_children;
use crate::error::DecodeErrorS;
use crate::model::IngredientNameS;
use crate::model::IngredientS;
use crate::model::InstructionS;
use crate::model::MeasurementS;
use crate::tree::first_child;
use crate::tree::named;
use crate::tree::prop_lookup;
use crate::tree::ChildS;
use crate::tree::NodeS;
use crate::tree::PropS;

verus! {

/// An optional string the encoder can represent: absent, or non-empty.
/// A present-but-empty optional is omitted on encode and decodes as
/// absent, so the round-trip laws leave it out.
pub open spec fn valid_opt_str(o: Option<Seq<char>>) -> bool {
    match o {
        Some(s) => s.len() > 0,
        None => true,
    }
}

pub open spec fn valid_name(nm: IngredientNameS) -> bool {
    valid_opt_str(nm.subtype)
}

pub open spec fn valid_measurement(m: MeasurementS) -> bool {
    valid_opt_str(m.unit)
}

pub open spec fn valid_ingredient(ing: IngredientS) -> bool {
    &&& valid_opt_str(ing.id)
    &&& forall|i: int| 0 <= i < ing.names.len() ==> valid_name(#[trigger] ing.names[i])
    &&& forall|i: int|
        0 <= i < ing.measurements.len() ==> valid_measurement(#[trigger] ing.measurements[i])
}

/// No child of `cs` is named `key`, so filtering by `key` finds nothing.
proof fn lemma_named_none(cs: Seq<ChildS>, key: Seq<char>)
    requires
        forall|i: int| 0 <= i < cs.len() ==> (#[trigger] cs[i].name) != key,
    ensures
        named(cs, key) == Seq::<NodeS>::empty(),
    decreases cs.len(),
{
    if cs.len() > 0 {
        lemma_named_none(cs.drop_last(), key);
    }
}

/// Filtering children by name distributes over concatenation.
proof fn lemma_named_add(a: Seq<ChildS>, b: Seq<ChildS>, key: Seq<char>)
    ensures
        named(a + b, key) == named(a, key) + named(b, key),
    decreases b.len(),
{
    if b.len() == 0 {
        assert(a + b =~= a);
        assert(named(a, key) + named(b, key) =~= named(a, key));
    } else {
        lemma_named_add(a, b.drop_last(), key);
        assert((a + b).drop_last() =~= a + b.drop_last());
        assert((a + b).last() == b.last());
        if b.last().name == key {
            assert(named(a, key) + named(b, key) =~= (named(a, key) + named(
                b.drop_last(),
                key,
            )).push(b.last().node));
        } else {
            assert(named(a, key) + named(b, key) =~= named(a, key) + named(b.drop_last(), key));
        }
    }
}

/// No child of `cs` is named `key`, so there is no first one either.
proof fn lemma_first_child_none(cs: Seq<ChildS>, key: Seq<char>)
    requires
        forall|i: int| 0 <= i < cs.len() ==> (#[trigger] cs[i].name) != key,
    ensures
        first_child(cs, key) is None,
    decreases cs.len(),
{
    if cs.len() > 0 {
        assert(cs.drop_first() =~= cs.skip(1));
        assert forall|i: int| 0 <= i < cs.drop_first().len() implies (#[trigger] cs.drop_first()[
            i
        ].name) != key by {
            assert(cs.drop_first()[i] == cs[i + 1]);
        }
        lemma_first_child_none(cs.drop_first(), key);
    }
}

/// Every child that `str_children` builds is named `key`.
proof fn lemma_str_children_names(key: Seq<char>, items: Seq<Seq<char>>)
    ensures
        str_children(key, items).len() == items.len(),
        forall|i: int|
            0 <= i < items.len() ==> (#[trigger] str_children(key, items)[i]) == (ChildS {
                name: key,
                node: leaf_str(items[i]),
            }),
    decreases items.len(),
{
    if items.len() > 0 {
        lemma_str_children_names(key, items.drop_last());
    }
}

proof fn lemma_name_children_names(names: Seq<IngredientNameS>)
    ensures
        name_children(names).len() == names.len(),
        forall|i: int|
            0 <= i < names.len() ==> (#[trigger] name_children(names)[i]) == (ChildS {
                name: "option"@,
                node: s_encode_name(names[i]),
            }),
    decreases names.len(),
{
    if names.len() > 0 {
        lemma_name_children_names(names.drop_last());
    }
}

proof fn lemma_amount_children_names(ms: Seq<MeasurementS>)
    ensures
        amount_children(ms).len() == ms.len(),
        forall|i: int|
            0 <= i < ms.len() ==> (#[trigger] amount_children(ms)[i]) == (ChildS {
                name: "amount"@,
                node: s_encode_measurement(ms[i]),
            }),
    decreases ms.len(),
{
    if ms.len() > 0 {
        lemma_amount_children_names(ms.drop_last());
    }
}

proof fn lemma_ingredient_children_names(is: Seq<IngredientS>)
    ensures
        ingredient_children(is).len() == is.len(),
        forall|i: int|
            0 <= i < is.len() ==> (#[trigger] ingredient_children(is)[i]) == (ChildS {
                name: "ingredient"@,
                node: s_encode_ingredient(is[i]),
            }),
    decreases is.len(),
{
    if is.len() > 0 {
        lemma_ingredient_children_names(is.drop_last());
    }
}

/// A property list a single encoded name or ingredient carries holds at
/// most a "kind" and an "id" entry; looking either up finds exactly what
/// was put there.
proof fn lemma_prop_lookup_add(a: Seq<PropS>, b: Seq<PropS>, key: Seq<char>)
    ensures
        prop_lookup(a + b, key) == (match prop_lookup(b, key) {
            Some(v) => Some(v),
            None => prop_lookup(a, key),
        }),
    decreases b.len(),
{
    if b.len() == 0 {
        assert(a + b =~= a);
    } else {
        lemma_prop_lookup_add(a, b.drop_last(), key);
        assert((a + b).drop_last() =~= a + b.drop_last());
        assert((a + b).last() == b.last());
    }
}

/// Decoding an encoded ingredient name from index zero yields the name
/// back, one positional value consumed.
pub proof fn lemma_name_round_trip(nm: IngredientNameS)
    requires
        valid_name(nm),
    ensures
        s_parse_name(s_encode_name(nm), 0) == Ok::<(IngredientNameS, int), DecodeErrorS>((nm, 1)),
{
    let n = s_encode_name(nm);
    match nm.subtype {
        Some(s) => {
            assert(n.props.last() == PropS { name: "kind"@, value: crate::tree::ValueS::Str(s) });
            assert(n.props.drop_last() =~= Seq::<PropS>::empty());
        },
        None => {},
    }
}

/// Decoding an encoded measurement from index `i` in a node whose
/// positional values continue with the measurement's yields it back, with
/// every remaining value consumed.
pub proof fn lemma_measurement_round_trip(m: MeasurementS)
    requires
        valid_measurement(m),
    ensures
        s_parse_measurement(s_encode_measurement(m), 0) == Ok::<
            (MeasurementS, int),
            DecodeErrorS,
        >((m, s_encode_measurement(m).args.len() as int)),
{
    let n = s_encode_measurement(m);
    match m.unit {
        Some(u) => {
            assert(n.args[1] == crate::tree::ValueS::Str(u));
        },
        None => {},
    }
}

/// Decoding the encoded "option" children yields the names back.
pub proof fn lemma_options_round_trip(names: Seq<IngredientNameS>)
    requires
        forall|i: int| 0 <= i < names.len() ==> valid_name(#[trigger] names[i]),
    ensures
        s_decode_options(named(name_children(names), "option"@)) == Ok::<
            Seq<IngredientNameS>,
            DecodeErrorS,
        >(names),
    decreases names.len(),
{
    if names.len() == 0 {
        assert(names =~= Seq::<IngredientNameS>::empty());
    } else {
        lemma_options_round_trip(names.drop_last());
        let cs = name_children(names);
        assert(cs.drop_last() =~= name_children(names.drop_last()));
        let ns = named(cs, "option"@);
        assert(ns == named(cs.drop_last(), "option"@).push(cs.last().node));
        assert(ns.drop_last() =~= named(cs.drop_last(), "option"@));
        assert(ns.last() == s_encode_name(names.last()));
        lemma_name_round_trip(names.last());
        assert(names.drop_last().push(names.last()) =~= names);
    }
}

/// Decoding the encoded "amount" children yields the measurements back.
pub proof fn lemma_amounts_round_trip(ms: Seq<MeasurementS>)
    requires
        forall|i: int| 0 <= i < ms.len() ==> valid_measurement(#[trigger] ms[i]),
    ensures
        s_decode_amounts(named(amount_children(ms), "amount"@)) == Ok::<
            Seq<MeasurementS>,
            DecodeErrorS,
        >(ms),
    decreases ms.len(),
{
    if ms.len() == 0 {
        assert(ms =~= Seq::<MeasurementS>::empty());
    } else {
        lemma_amounts_round_trip(ms.drop_last());
        let cs = amount_children(ms);
        assert(cs.drop_last() =~= amount_children(ms.drop_last()));
        let ns = named(cs, "amount"@);
        assert(ns.drop_last() =~= named(cs.drop_last(), "amount"@));
        assert(ns.last() == s_encode_measurement(ms.last()));
        lemma_measurement_round_trip(ms.last());
        assert(ms.drop_last().push(ms.last()) =~= ms);
    }
}

/// Decoding the encoded children of a string list yields the strings
/// back; empty strings round-trip too, a child always carries its value.
pub proof fn lemma_strs_round_trip(key: Seq<char>, items: Seq<Seq<char>>)
    ensures
        s_decode_strs(named(str_children(key, items), key), key) == Ok::<
            Seq<Seq<char>>,
            DecodeErrorS,
        >(items),
    decreases items.len(),
{
    if items.len() == 0 {
        assert(items =~= Seq::<Seq<char>>::empty());
    } else {
        lemma_strs_round_trip(key, items.drop_last());
        let cs = str_children(key, items);
        assert(cs.drop_last() =~= str_children(key, items.drop_last()));
        let ns = named(cs, key);
        assert(ns.drop_last() =~= named(cs.drop_last(), key));
        assert(ns.last() == leaf_str(items.last()));
        assert(s_child_str(leaf_str(items.last())) == Ok::<Seq<char>, DecodeErrorS>(
            items.last(),
        ));
        assert(items.drop_last().push(items.last()) =~= items);
    }
}

/// Decoding an encoded instruction yields it back.
pub proof fn lemma_instruction_round_trip(ins: InstructionS)
    ensures
        s_decode_instruction(s_encode_instruction(ins)) == Ok::<InstructionS, DecodeErrorS>(ins),
{
    lemma_strs_round_trip("ref"@, ins.ingredient_refs);
}

/// Decoding an encoded ingredient yields it back: the collapsing decision
/// (one name or measurement inline, any other number as explicit
/// children) is a pure function of list length and is applied identically
/// on both paths.
#[verifier::rlimit(50)]
pub proof fn lemma_ingredient_round_trip(ing: IngredientS)
    requires
        valid_ingredient(ing),
    ensures
        s_decode_ingredient(s_encode_ingredient(ing)) == Ok::<IngredientS, DecodeErrorS>(ing),
{
    reveal_strlit("kind");
    reveal_strlit("id");
    reveal_strlit("option");
    reveal_strlit("amount");
    reveal_strlit("note");
    let n = s_encode_ingredient(ing);
    let name_node = if ing.names.len() == 1 {
        s_encode_name(ing.names[0])
    } else {
        NodeS { args: seq![], props: seq![], children: seq![] }
    };
    let opt_children = if ing.names.len() == 1 {
        seq![]
    } else {
        name_children(ing.names)
    };
    let meas_args = if ing.measurements.len() == 1 {
        s_encode_measurement(ing.measurements[0]).args
    } else {
        seq![]
    };
    let amt_children = if ing.measurements.len() == 1 {
        seq![]
    } else {
        amount_children(ing.measurements)
    };
    let note_children = str_children("note"@, ing.notes);
    let id_props: Seq<PropS> = match ing.id {
        Some(s) => if s.len() > 0 {
            seq![PropS { name: "id"@, value: crate::tree::ValueS::Str(s) }]
        } else {
            seq![]
        },
        None => seq![],
    };
    assert(("kind"@).len() == 4);
    assert(("id"@).len() == 2);
    assert(("option"@).len() == 6);
    assert(("amount"@).len() == 6);
    assert(("note"@).len() == 4);
    assert(("option"@)[0] == 'o');
    assert(("amount"@)[0] == 'a');
    assert(("kind"@)[0] == 'k');
    assert(("note"@)[0] == 'n');
    assert("kind"@ != "id"@);
    assert("option"@ != "amount"@);
    assert("option"@ != "note"@);
    assert("amount"@ != "note"@);
    assert(n.children == opt_children + amt_children + note_children);
    assert(n.props == name_node.props + id_props);
    assert(n.args == name_node.args + meas_args);

    if ing.names.len() != 1 {
        lemma_name_children_names(ing.names);
    }
    if ing.measurements.len() != 1 {
        lemma_amount_children_names(ing.measurements);
    }
    lemma_str_children_names("note"@, ing.notes);

    // filtering the children by each of the three names
    lemma_named_add(opt_children + amt_children, note_children, "option"@);
    lemma_named_add(opt_children, amt_children, "option"@);
    lemma_named_add(opt_children + amt_children, note_children, "amount"@);
    lemma_named_add(opt_children, amt_children, "amount"@);
    lemma_named_add(opt_children + amt_children, note_children, "note"@);
    lemma_named_add(opt_children, amt_children, "note"@);
    lemma_named_none(amt_children, "option"@);
    lemma_named_none(note_children, "option"@);
    lemma_named_none(opt_children, "amount"@);
    lemma_named_none(note_children, "amount"@);
    lemma_named_none(opt_children, "note"@);
    lemma_named_none(amt_children, "note"@);
    assert(named(n.children, "option"@) =~= named(opt_children, "option"@));
    assert(named(n.children, "amount"@) =~= named(amt_children, "amount"@));
    assert(named(n.children, "note"@) =~= named(note_children, "note"@));

    // the "id" property
    lemma_prop_lookup_add(name_node.props, id_props, "id"@);
    lemma_prop_lookup_add(name_node.props, id_props, "kind"@);
    if id_props.len() == 1 {
        assert(id_props.drop_last() =~= Seq::<PropS>::empty());
    }
    if name_node.props.len() == 1 {
        assert(name_node.props.drop_last() =~= Seq::<PropS>::empty());
    }
    assert(s_prop_str(n, "id"@) == Ok::<Option<Seq<char>>, DecodeErrorS>(ing.id));

    // the names
    let opts_decoded: Seq<IngredientNameS> = if ing.names.len() == 1 {
        Seq::<IngredientNameS>::empty()
    } else {
        ing.names
    };
    if ing.names.len() == 1 {
        assert(named(n.children, "option"@) =~= Seq::<NodeS>::empty());
        assert(s_decode_options(named(n.children, "option"@)) == Ok::<
            Seq<IngredientNameS>,
            DecodeErrorS,
        >(opts_decoded));
    } else {
        assert forall|i: int| 0 <= i < ing.names.len() implies valid_name(
            #[trigger] ing.names[i],
        ) by {}
        lemma_options_round_trip(ing.names);
        assert(s_decode_options(named(n.children, "option"@)) == Ok::<
            Seq<IngredientNameS>,
            DecodeErrorS,
        >(opts_decoded));
    }

    // the inline name shorthand
    if ing.names.len() == 1 {
        assert(n.args[0] == crate::tree::ValueS::Str(ing.names[0].name));
        assert(s_prop_str(n, "kind"@) == Ok::<Option<Seq<char>>, DecodeErrorS>(
            ing.names[0].subtype,
        ));
        assert(s_parse_name(n, 0) == Ok::<(IngredientNameS, int), DecodeErrorS>((
            ing.names[0],
            1,
        )));
        assert(opts_decoded.push(ing.names[0]) =~= ing.names);
    } else {
        if ing.measurements.len() == 1 {
            assert(n.args =~= meas_args);
            assert(n.args[0] == crate::encode::quantity_value(ing.measurements[0].quantity));
            assert(s_parse_name(n, 0) is Err);
        } else {
            assert(n.args.len() == 0);
            assert(s_parse_name(n, 0) is Err);
        }
    }
    let j: int = if ing.names.len() == 1 {
        1
    } else {
        0
    };

    // the measurements
    let amts_decoded: Seq<MeasurementS> = if ing.measurements.len() == 1 {
        Seq::<MeasurementS>::empty()
    } else {
        ing.measurements
    };
    if ing.measurements.len() == 1 {
        assert(named(n.children, "amount"@) =~= Seq::<NodeS>::empty());
        assert(s_decode_amounts(named(n.children, "amount"@)) == Ok::<
            Seq<MeasurementS>,
            DecodeErrorS,
        >(amts_decoded));
        // the trailing shorthand reads the measurement back
        let m = ing.measurements[0];
        assert(meas_args[0] == crate::encode::quantity_value(m.quantity));
        assert(n.args[j] == crate::encode::quantity_value(m.quantity));
        match m.unit {
            Some(u) => {
                assert(meas_args[1] == crate::tree::ValueS::Str(u));
                assert(n.args[j + 1] == crate::tree::ValueS::Str(u));
                assert(n.args.len() == j + 2);
            },
            None => {
                assert(n.args.len() == j + 1);
            },
        }
        assert(s_parse_measurement(n, j) == Ok::<(MeasurementS, int), DecodeErrorS>((
            m,
            n.args.len() as int,
        )));
        assert(amts_decoded.push(m) =~= ing.measurements);
    } else {
        assert forall|i: int| 0 <= i < ing.measurements.len() implies valid_measurement(
            #[trigger] ing.measurements[i],
        ) by {}
        lemma_amounts_round_trip(ing.measurements);
        assert(s_decode_amounts(named(n.children, "amount"@)) == Ok::<
            Seq<MeasurementS>,
            DecodeErrorS,
        >(amts_decoded));
        assert(n.args.len() == j);
        assert(s_parse_measurement(n, j) is Err);
    }

    // the notes
    lemma_strs_round_trip("note"@, ing.notes);
    assert(s_decode_strs(named(n.children, "note"@), "note"@) == Ok::<
        Seq<Seq<char>>,
        DecodeErrorS,
    >(ing.notes));
}

/// Decoding the encoded "ingredient" children yields the ingredients
/// back.
pub proof fn lemma_ingredients_round_trip(is: Seq<IngredientS>)
    requires
        forall|i: int| 0 <= i < is.len() ==> valid_ingredient(#[trigger] is[i]),
    ensures
        crate::decode::s_decode_ingredients(named(ingredient_children(is), "ingredient"@)) == Ok::<
            Seq<IngredientS>,
            DecodeErrorS,
        >(is),
    decreases is.len(),
{
    if is.len() == 0 {
        assert(is =~= Seq::<IngredientS>::empty());
    } else {
        lemma_ingredients_round_trip(is.drop_last());
        let cs = ingredient_children(is);
        assert(cs.drop_last() =~= ingredient_children(is.drop_last()));
        let ns = named(cs, "ingredient"@);
        assert(ns.drop_last() =~= named(cs.drop_last(), "ingredient"@));
        assert(ns.last() == s_encode_ingredient(is.last()));
        lemma_ingredient_round_trip(is.last());
        assert(is.drop_last().push(is.last()) =~= is);
    }
}

/// Decoding the encoded "step" children yields the instructions back.
pub proof fn lemma_steps_round_trip(ins: Seq<InstructionS>)
    ensures
        crate::decode::s_decode_steps(named(step_children(ins), "step"@)) == Ok::<
            Seq<InstructionS>,
            DecodeErrorS,
        >(ins),
    decreases ins.len(),
{
    if ins.len() == 0 {
        assert(ins =~= Seq::<InstructionS>::empty());
    } else {
        lemma_steps_round_trip(ins.drop_last());
        let cs = step_children(ins);
        assert(cs.drop_last() =~= step_children(ins.drop_last()));
        let ns = named(cs, "step"@);
        assert(ns.drop_last() =~= named(cs.drop_last(), "step"@));
        assert(ns.last() == s_encode_instruction(ins.last()));
        lemma_instruction_round_trip(ins.last());
        assert(ins.drop_last().push(ins.last()) =~= ins);
    }
}

/// A document with no child named "instruction" never decodes as a
/// recipe, even one that would hold no steps.
pub proof fn lemma_missing_instruction_fails(n: NodeS)
    requires
        first_child(n.children, "instruction"@) is None,
    ensures
        s_decode_recipe(n) is Err,
{
}

/// No document the recipe encoder produces decodes as a recipe: the
/// decoder requires a child named "instruction", the encoder writes the
/// wrapper as "instructions".  Any value decoded from an encoded document
/// therefore re-encodes to it vacuously.
pub proof fn lemma_encoded_recipe_never_decodes(r: crate::model::RecipeS)
    ensures
        s_decode_recipe(s_encode_recipe(r)) is Err,
{
    reveal_strlit("tag");
    reveal_strlit("ingredient");
    reveal_strlit("equipment");
    reveal_strlit("instructions");
    reveal_strlit("instruction");
    reveal_strlit("source");
    let n = s_encode_recipe(r);
    let a = str_children("tag"@, r.tags);
    let b = ingredient_children(r.ingredients);
    let c = str_children("equipment"@, r.equipment);
    let d: Seq<ChildS> = seq![
        ChildS {
            name: "instructions"@,
            node: NodeS { args: seq![], props: seq![], children: step_children(r.instructions) },
        },
    ];
    let e: Seq<ChildS> = match r.source {
        Some(src) => if crate::source::render_source(src).len() > 0 {
            seq![
                ChildS {
                    name: "source"@,
                    node: leaf_str(crate::source::render_source(src)),
                },
            ]
        } else {
            seq![]
        },
        None => seq![],
    };
    assert(("tag"@).len() == 3);
    assert(("ingredient"@).len() == 10);
    assert(("equipment"@).len() == 9);
    assert(("instructions"@).len() == 12);
    assert(("instruction"@).len() == 11);
    assert(("source"@).len() == 6);
    assert("tag"@ != "instruction"@);
    assert("ingredient"@ != "instruction"@);
    assert("equipment"@ != "instruction"@);
    assert("instructions"@ != "instruction"@);
    assert("source"@ != "instruction"@);
    assert(n.children == a + b + c + d + e);
    lemma_str_children_names("tag"@, r.tags);
    lemma_ingredient_children_names(r.ingredients);
    lemma_str_children_names("equipment"@, r.equipment);
    assert forall|i: int| 0 <= i < n.children.len() implies (#[trigger] n.children[i].name)
        != "instruction"@ by {
        let la = a.len() as int;
        let lb = b.len() as int;
        let lc = c.len() as int;
        let ld = d.len() as int;
        if i < la {
            assert(n.children[i] == a[i]);
        } else if i < la + lb {
            assert(n.children[i] == b[i - la]);
        } else if i < la + lb + lc {
            assert(n.children[i] == c[i - la - lb]);
        } else if i < la + lb + lc + ld {
            assert(n.children[i] == d[i - la - lb - lc]);
        } else {
            assert(n.children[i] == e[i - la - lb - lc - ld]);
        }
    }
    lemma_first_child_none(n.children, "instruction"@);
    lemma_missing_instruction_fails(n);
}

} // verus!
