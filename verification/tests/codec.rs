use recipe_codec::error::ErrorKind;
use recipe_codec::model::Ingredient;
use recipe_codec::model::Instruction;
use recipe_codec::model::Measurement;
use recipe_codec::model::Quantity;
use recipe_codec::model::Recipe;
use recipe_codec::model::Source;
use recipe_codec::tree::Child;
use recipe_codec::tree::Node;
use recipe_codec::tree::Prop;
use recipe_codec::tree::Value;

fn to_value(v: &kdl::KdlValue) -> Value {
    match v {
        kdl::KdlValue::String(s) => Value::Str(s.clone()),
        kdl::KdlValue::Integer(i) => Value::Int(*i as i64),
        kdl::KdlValue::Float(f) => {
            let g = *f as f32;
            if g == g.trunc() {
                Value::Int(g.trunc() as i64)
            } else {
                Value::Float((g as f64).to_bits())
            }
        }
        _ => panic!("value kind outside the codec's grammar"),
    }
}

fn to_node(k: &kdl::KdlNode) -> Node {
    let mut args: Vec<Value> = Vec::new();
    let mut props: Vec<Prop> = Vec::new();
    for entry in k.entries() {
        let v = to_value(entry.value());
        match entry.name() {
            Some(n) => props.push(Prop {
                name: n.value().to_string(),
                value: v,
            }),
            None => args.push(v),
        }
    }
    let mut children: Vec<Child> = Vec::new();
    if let Some(doc) = k.children() {
        for c in doc.nodes() {
            children.push(Child {
                name: c.name().value().to_string(),
                node: to_node(c),
            });
        }
    }
    Node {
        args,
        props,
        children,
    }
}

fn from_value(v: &Value) -> kdl::KdlValue {
    match v {
        Value::Str(s) => kdl::KdlValue::String(s.clone()),
        Value::Int(i) => kdl::KdlValue::Integer(*i as i128),
        Value::Float(b) => kdl::KdlValue::Float(f64::from_bits(*b)),
    }
}

fn to_kdl(name: &str, n: &Node) -> kdl::KdlNode {
    let mut k = kdl::KdlNode::new(name);
    let mut args = n.args.iter();
    if let Some(first) = args.next() {
        k.push(kdl::KdlEntry::new(from_value(first)));
    }
    for p in &n.props {
        if p.name == "kind" {
            k.push(kdl::KdlEntry::new_prop(p.name.as_str(), from_value(&p.value)));
        }
    }
    for a in args {
        k.push(kdl::KdlEntry::new(from_value(a)));
    }
    for p in &n.props {
        if p.name != "kind" {
            k.push(kdl::KdlEntry::new_prop(p.name.as_str(), from_value(&p.value)));
        }
    }
    if !n.children.is_empty() {
        let mut doc = kdl::KdlDocument::new();
        for c in &n.children {
            doc.nodes_mut().push(to_kdl(&c.name, &c.node));
        }
        k.set_children(doc);
    }
    k
}

fn render(name: &str, n: &Node) -> String {
    let mut doc = kdl::KdlDocument::new();
    doc.nodes_mut().push(to_kdl(name, n));
    doc.autoformat();
    doc.to_string()
}

fn parse_node(doc_str: &str) -> Node {
    let doc = kdl::KdlDocument::parse(doc_str).expect("document parses");
    to_node(&doc.nodes()[0])
}

#[test]
fn whole_quantity_encodes_as_integer_token() {
    let m = Measurement {
        quantity: Quantity::Whole(2),
        unit: None,
    };
    let n = m.as_kdl();
    assert_eq!(n.args, vec![Value::Int(2)]);
    assert_eq!(render("amount", &n), "amount 2\n");
}

#[test]
fn fractional_quantity_encodes_as_float_token() {
    let m = Measurement {
        quantity: Quantity::Fraction(0.75f64.to_bits()),
        unit: Some("cup".into()),
    };
    let n = m.as_kdl();
    assert_eq!(
        n.args,
        vec![Value::Float(0.75f64.to_bits()), Value::Str("cup".into())]
    );
    assert_eq!(render("amount", &n), "amount 0.75 cup\n");
}

#[test]
fn float_token_with_whole_value_canonicalizes() {
    let node = parse_node("amount 2.0 cup\n");
    let m = Measurement::from_kdl(&node).expect("measurement decodes");
    assert_eq!(
        m,
        Measurement {
            quantity: Quantity::Whole(2),
            unit: Some("cup".into())
        }
    );
    assert_eq!(render("amount", &m.as_kdl()), "amount 2 cup\n");
}

#[test]
fn source_url_conversion_is_total() {
    match Source::from_str("https://example.com/x") {
        Source::Url(u) => assert_eq!(u, "https://example.com/x"),
        Source::Other(_) => panic!("a URL string must convert to the Url variant"),
    }
}

#[test]
fn source_other_preserves_the_string() {
    match Source::from_str("not a url at all, has spaces") {
        Source::Other(s) => assert_eq!(s, "not a url at all, has spaces"),
        Source::Url(_) => panic!("a non-URL string must convert to the Other variant"),
    }
}

#[test]
fn source_url_is_canonicalized() {
    let s = Source::from_str("HTTPS://EXAMPLE.COM/x");
    match &s {
        Source::Url(u) => assert_eq!(u, "https://example.com/x"),
        Source::Other(_) => panic!("a URL string must convert to the Url variant"),
    }
    assert_eq!(s.to_string(), "https://example.com/x");
}

#[test]
fn recipe_decodes_with_instruction_wrapper() {
    let doc_str = "recipe {\n    tag breakfast\n    ingredient Egg 1\n    equipment pan\n    instruction {\n        step \"Crack the egg\" {\n            ref egg\n        }\n    }\n    source \"https://example.com/x\"\n}\n";
    let node = parse_node(doc_str);
    let recipe = Recipe::from_kdl(&node).expect("recipe decodes");
    assert_eq!(recipe.tags, vec!["breakfast".to_string()]);
    assert_eq!(recipe.equipment, vec!["pan".to_string()]);
    assert_eq!(recipe.ingredients.len(), 1);
    assert_eq!(
        recipe.instructions,
        vec![Instruction {
            description: "Crack the egg".into(),
            ingredient_refs: vec!["egg".into()]
        }]
    );
    assert_eq!(
        recipe.source,
        Some(Source::Url("https://example.com/x".into()))
    );
}

#[test]
fn missing_instruction_wrapper_is_an_error() {
    let doc_str = "recipe {\n    tag breakfast\n    ingredient Egg 1\n}\n";
    let node = parse_node(doc_str);
    let err = Recipe::from_kdl(&node).expect_err("a recipe without the wrapper must not decode");
    assert_eq!(err.path, vec!["instruction".to_string()]);
    assert_eq!(err.kind, ErrorKind::MissingChild);
}

#[test]
fn empty_instruction_wrapper_is_enough() {
    let doc_str = "recipe {\n    instruction {\n    }\n}\n";
    let node = parse_node(doc_str);
    let recipe = Recipe::from_kdl(&node).expect("an empty wrapper still decodes");
    assert_eq!(recipe.instructions, vec![]);
}

#[test]
fn encoded_recipe_uses_instructions_wrapper_and_never_decodes_back() {
    let doc_str = "recipe {\n    tag breakfast\n    instruction {\n        step \"Crack the egg\"\n    }\n}\n";
    let node = parse_node(doc_str);
    let recipe = Recipe::from_kdl(&node).expect("recipe decodes");
    let encoded = recipe.as_kdl();
    assert!(encoded
        .children
        .iter()
        .any(|c| c.name == "instructions"));
    assert!(!encoded.children.iter().any(|c| c.name == "instruction"));
    assert!(Recipe::from_kdl(&encoded).is_err());
}

#[test]
fn instruction_round_trips() {
    let node = parse_node("step \"Whisk\" {\n    ref egg\n    ref milk\n}\n");
    let ins = Instruction::from_kdl(&node).expect("instruction decodes");
    assert_eq!(
        ins,
        Instruction {
            description: "Whisk".into(),
            ingredient_refs: vec!["egg".into(), "milk".into()]
        }
    );
    assert_eq!(ins.as_kdl(), node);
}

#[test]
fn wrong_type_note_is_an_error() {
    let node = parse_node("ingredient Egg {\n    note 5\n}\n");
    let err = Ingredient::from_kdl(&node).expect_err("an integer note must not decode");
    assert_eq!(err.path, vec!["note".to_string()]);
    assert_eq!(err.kind, ErrorKind::WrongType);
}

#[test]
fn missing_note_value_is_an_error() {
    let node = parse_node("ingredient Egg {\n    note\n}\n");
    let err = Ingredient::from_kdl(&node).expect_err("a note without a value must not decode");
    assert_eq!(err.path, vec!["note".to_string()]);
    assert_eq!(err.kind, ErrorKind::MissingArgument);
}

#[test]
fn wrong_type_id_is_an_error() {
    let node = parse_node("ingredient Egg id=7\n");
    let err = Ingredient::from_kdl(&node).expect_err("an integer id must not decode");
    assert_eq!(err.path, vec!["id".to_string()]);
    assert_eq!(err.kind, ErrorKind::WrongType);
}

#[test]
fn step_error_is_wrapped_with_its_path() {
    let doc_str = "recipe {\n    instruction {\n        step\n    }\n}\n";
    let node = parse_node(doc_str);
    let err = Recipe::from_kdl(&node).expect_err("a step without a description must not decode");
    assert_eq!(
        err.path,
        vec!["instruction".to_string(), "step".to_string()]
    );
    assert_eq!(err.kind, ErrorKind::MissingArgument);
}

#[test]
fn notes_section_absent_when_empty() {
    let ing = Ingredient {
        id: None,
        names: vec![],
        measurements: vec![],
        notes: vec![],
    };
    let n = ing.as_kdl();
    assert!(n.children.is_empty());
    assert!(n.args.is_empty());
    assert!(n.props.is_empty());
}

// With two names and a single measurement the names become "option"
// children while the measurement stays inline; the failed inline-name
// attempt leaves the argument stream untouched for the measurement.
#[test]
fn two_names_one_inline_measurement_round_trips() {
    let doc_str = "ingredient 2 cup {\n    option Milk kind=Whole\n    option Milk kind=Buttermilk\n}\n";
    let node = parse_node(doc_str);
    let ing = Ingredient::from_kdl(&node).expect("ingredient decodes");
    assert_eq!(ing.names.len(), 2);
    assert_eq!(
        ing.measurements,
        vec![Measurement {
            quantity: Quantity::Whole(2),
            unit: Some("cup".into())
        }]
    );
    assert_eq!(ing.as_kdl(), node);
}

// A present-but-empty unit is omitted entirely, like an absent one.
#[test]
fn empty_unit_is_omitted() {
    let m = Measurement {
        quantity: Quantity::Whole(1),
        unit: Some(String::new()),
    };
    assert_eq!(m.as_kdl().args, vec![Value::Int(1)]);
    assert_eq!(render("amount", &m.as_kdl()), "amount 1\n");
}
