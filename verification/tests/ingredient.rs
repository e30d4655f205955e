use recipe_codec::model::Ingredient;
use recipe_codec::model::IngredientName;
use recipe_codec::model::Measurement;
use recipe_codec::model::Quantity;
use recipe_codec::tree::Child;
use recipe_codec::tree::Node;
use recipe_codec::tree::Prop;
use recipe_codec::tree::Value;

fn to_value(v: &kdl::KdlValue) -> Value {
    match v {
        kdl::KdlValue::String(s) => Value::Str(s.clone()),
        kdl::KdlValue::Integer(i) => Value::Int(*i as i64),
        kdl::KdlValue::Float(f) => {
            let g = *f as f32;
            if g == g.trunc() {
                Value::Int(g.trunc() as i64)
            } else {
                Value::Float((g as f64).to_bits())
            }
        }
        _ => panic!("value kind outside the codec's grammar"),
    }
}

fn to_node(k: &kdl::KdlNode) -> Node {
    let mut args: Vec<Value> = Vec::new();
    let mut props: Vec<Prop> = Vec::new();
    for entry in k.entries() {
        let v = to_value(entry.value());
        match entry.name() {
            Some(n) => props.push(Prop {
                name: n.value().to_string(),
                value: v,
            }),
            None => args.push(v),
        }
    }
    let mut children: Vec<Child> = Vec::new();
    if let Some(doc) = k.children() {
        for c in doc.nodes() {
            children.push(Child {
                name: c.name().value().to_string(),
                node: to_node(c),
            });
        }
    }
    Node {
        args,
        props,
        children,
    }
}

fn from_value(v: &Value) -> kdl::KdlValue {
    match v {
        Value::Str(s) => kdl::KdlValue::String(s.clone()),
        Value::Int(i) => kdl::KdlValue::Integer(*i as i128),
        Value::Float(b) => kdl::KdlValue::Float(f64::from_bits(*b)),
    }
}

// The external writer's layout: a "kind" property sits right after the
// first positional value, any other property after all of them.
fn to_kdl(name: &str, n: &Node) -> kdl::KdlNode {
    let mut k = kdl::KdlNode::new(name);
    let mut args = n.args.iter();
    if let Some(first) = args.next() {
        k.push(kdl::KdlEntry::new(from_value(first)));
    }
    for p in &n.props {
        if p.name == "kind" {
            k.push(kdl::KdlEntry::new_prop(p.name.as_str(), from_value(&p.value)));
        }
    }
    for a in args {
        k.push(kdl::KdlEntry::new(from_value(a)));
    }
    for p in &n.props {
        if p.name != "kind" {
            k.push(kdl::KdlEntry::new_prop(p.name.as_str(), from_value(&p.value)));
        }
    }
    if !n.children.is_empty() {
        let mut doc = kdl::KdlDocument::new();
        for c in &n.children {
            doc.nodes_mut().push(to_kdl(&c.name, &c.node));
        }
        k.set_children(doc);
    }
    k
}

fn render(name: &str, n: &Node) -> String {
    let mut doc = kdl::KdlDocument::new();
    doc.nodes_mut().push(to_kdl(name, n));
    doc.autoformat();
    doc.to_string()
}

fn parse_ingredient(doc_str: &str) -> (Ingredient, Node) {
    let doc = kdl::KdlDocument::parse(doc_str).expect("document parses");
    let node = to_node(&doc.nodes()[0]);
    let ingredient = Ingredient::from_kdl(&node).expect("ingredient decodes");
    (ingredient, node)
}

#[test]
fn single_nosubtype_nounit_noid() {
    let doc_str = "ingredient Egg 1\n";
    let (ingredient, _) = parse_ingredient(doc_str);
    assert_eq!(
        ingredient,
        Ingredient {
            names: vec![IngredientName {
                name: "Egg".into(),
                subtype: None
            }],
            id: None,
            measurements: vec![Measurement {
                quantity: Quantity::Whole(1),
                unit: None
            }],
            notes: vec![]
        }
    );
    let kdl_str = render("ingredient", &ingredient.as_kdl());
    assert_eq!(kdl_str, doc_str);
}

#[test]
fn single_subtype_unit_noid() {
    let doc_str = "ingredient Sugar kind=Granulated 1 tbsp\n";
    let (ingredient, _) = parse_ingredient(doc_str);
    assert_eq!(
        ingredient,
        Ingredient {
            names: vec![IngredientName {
                name: "Sugar".into(),
                subtype: Some("Granulated".into())
            }],
            id: None,
            measurements: vec![Measurement {
                quantity: Quantity::Whole(1),
                unit: Some("tbsp".into())
            }],
            notes: vec![]
        }
    );
    let kdl_str = render("ingredient", &ingredient.as_kdl());
    assert_eq!(kdl_str, doc_str);
}

#[test]
fn single_subtype_unit_id() {
    let doc_str = "ingredient Sugar kind=Granulated 1 tbsp id=dry\n";
    let (ingredient, _) = parse_ingredient(doc_str);
    assert_eq!(
        ingredient,
        Ingredient {
            names: vec![IngredientName {
                name: "Sugar".into(),
                subtype: Some("Granulated".into())
            }],
            id: Some("dry".into()),
            measurements: vec![Measurement {
                quantity: Quantity::Whole(1),
                unit: Some("tbsp".into())
            }],
            notes: vec![]
        }
    );
    let kdl_str = render("ingredient", &ingredient.as_kdl());
    assert_eq!(kdl_str, doc_str);
}

#[test]
fn multiple_measurements() {
    let doc_str = "ingredient Flour kind=All-Purpose id=dry {\n    amount 2 cup\n    amount 250 gram\n}\n";
    let (ingredient, _) = parse_ingredient(doc_str);
    assert_eq!(
        ingredient,
        Ingredient {
            names: vec![IngredientName {
                name: "Flour".into(),
                subtype: Some("All-Purpose".into())
            }],
            id: Some("dry".into()),
            measurements: vec![
                Measurement {
                    quantity: Quantity::Whole(2),
                    unit: Some("cup".into())
                },
                Measurement {
                    quantity: Quantity::Whole(250),
                    unit: Some("gram".into())
                }
            ],
            notes: vec![]
        }
    );
    let kdl_str = render("ingredient", &ingredient.as_kdl());
    assert_eq!(kdl_str, doc_str);
}

#[test]
fn multiple_measurements_options() {
    let doc_str = "ingredient id=wet {\n    option Milk kind=Whole\n    option Milk kind=Buttermilk\n    option Milk kind=\"2%\"\n    amount 0.75 cup\n    amount 177 ml\n}\n";
    let (ingredient, _) = parse_ingredient(doc_str);
    assert_eq!(
        ingredient,
        Ingredient {
            names: vec![
                IngredientName {
                    name: "Milk".into(),
                    subtype: Some("Whole".into())
                },
                IngredientName {
                    name: "Milk".into(),
                    subtype: Some("Buttermilk".into())
                },
                IngredientName {
                    name: "Milk".into(),
                    subtype: Some("2%".into())
                },
            ],
            id: Some("wet".into()),
            measurements: vec![
                Measurement {
                    quantity: Quantity::Fraction(0.75f64.to_bits()),
                    unit: Some("cup".into())
                },
                Measurement {
                    quantity: Quantity::Whole(177),
                    unit: Some("ml".into())
                },
            ],
            notes: vec![]
        }
    );
    let kdl_str = render("ingredient", &ingredient.as_kdl());
    assert_eq!(kdl_str, doc_str);
}

#[test]
fn notes() {
    let doc_str = "ingredient \"Baking Powder\" 1 tbsp id=dry {\n    note \"Some notes\"\n}\n";
    let (ingredient, _) = parse_ingredient(doc_str);
    assert_eq!(
        ingredient,
        Ingredient {
            names: vec![IngredientName {
                name: "Baking Powder".into(),
                subtype: None
            }],
            id: Some("dry".into()),
            measurements: vec![Measurement {
                quantity: Quantity::Whole(1),
                unit: Some("tbsp".into())
            }],
            notes: vec!["Some notes".into()],
        }
    );
    let kdl_str = render("ingredient", &ingredient.as_kdl());
    assert_eq!(kdl_str, doc_str);
}

// Decoding accepts the explicit singleton forms too, and the encoder
// canonicalizes them back to the inline shorthand.
#[test]
fn explicit_singletons_decode_and_collapse() {
    let doc_str = "ingredient {\n    option Egg\n    amount 1\n}\n";
    let (ingredient, _) = parse_ingredient(doc_str);
    assert_eq!(
        ingredient,
        Ingredient {
            names: vec![IngredientName {
                name: "Egg".into(),
                subtype: None
            }],
            id: None,
            measurements: vec![Measurement {
                quantity: Quantity::Whole(1),
                unit: None
            }],
            notes: vec![]
        }
    );
    let kdl_str = render("ingredient", &ingredient.as_kdl());
    assert_eq!(kdl_str, "ingredient Egg 1\n");
}

// The structural round trip: re-encoding a decoded document reproduces
// the tree exactly.
#[test]
fn reencoding_reproduces_the_tree() {
    let doc_str = "ingredient id=wet {\n    option Milk kind=Whole\n    option Milk kind=Buttermilk\n    amount 0.75 cup\n    amount 177 ml\n    note great\n}\n";
    let (ingredient, node) = parse_ingredient(doc_str);
    assert_eq!(ingredient.as_kdl(), node);
}
