//! The recipe data model: plain value records with no behaviour beyond the
//! codec methods that other modules attach to them.

use vstd::prelude::*;

verus! {

/// The quantity of a measurement, in the codec's canonical form: a whole
/// quantity is its integer value, any other quantity is the bit pattern of
/// its floating-point representation (opaque to the codec).  The tree
/// format's numeric canonicalization — a whole number is written as an
/// integer-typed token, anything else as a floating-point token — is a
/// function of this shape alone.
#[derive(Clone, Copy, Debug, PartialEq)]
pub enum Quantity {
    Whole(i64),
    Fraction(u64),
}

/// An amount of an ingredient: a quantity and an optional unit.
#[derive(Clone, Debug, PartialEq)]
pub struct Measurement {
    pub quantity: Quantity,
    pub unit: Option<String>,
}

/// One name an ingredient goes by, with an optional variety or brand
/// qualifier.
#[derive(Clone, Debug, PartialEq)]
pub struct IngredientName {
    pub name: String,
    pub subtype: Option<String>,
}

/// An ingredient: an optional cross-reference id, the names it goes by,
/// its measurements, and free-form notes.
#[derive(Clone, Debug, PartialEq)]
pub struct Ingredient {
    pub id: Option<String>,
    pub names: Vec<IngredientName>,
    pub measurements: Vec<Measurement>,
    pub notes: Vec<String>,
}

/// One step of a recipe, naming the ingredient ids it uses (not validated
/// against the actual ingredients).
#[derive(Clone, Debug, PartialEq)]
pub struct Instruction {
    pub description: String,
    pub ingredient_refs: Vec<String>,
}

/// Where a recipe came from: a string that parses as a URL is kept in its
/// canonical URL rendering, anything else is kept verbatim.
#[derive(Clone, Debug, PartialEq)]
pub enum Source {
    Url(String),
    Other(String),
}

/// A whole recipe.
#[derive(Clone, Debug, Default, PartialEq)]
pub struct Recipe {
    pub tags: Vec<String>,
    pub ingredients: Vec<Ingredient>,
    pub equipment: Vec<String>,
    pub instructions: Vec<Instruction>,
    pub source: Option<Source>,
}

/// Mathematical mirror of [`Quantity`].
#[verifier::ext_equal]
pub ghost enum QuantityS {
    Whole(i64),
    Fraction(u64),
}

/// Mathematical mirror of [`Measurement`].
#[verifier::ext_equal]
pub ghost struct MeasurementS {
    pub quantity: QuantityS,
    pub unit: Option<Seq<char>>,
}

/// Mathematical mirror of [`IngredientName`].
#[verifier::ext_equal]
pub ghost struct IngredientNameS {
    pub name: Seq<char>,
    pub subtype: Option<Seq<char>>,
}

/// Mathematical mirror of [`Ingredient`].
#[verifier::ext_equal]
pub ghost struct IngredientS {
    pub id: Option<Seq<char>>,
    pub names: Seq<IngredientNameS>,
    pub measurements: Seq<MeasurementS>,
    pub notes: Seq<Seq<char>>,
}

/// Mathematical mirror of [`Instruction`].
#[verifier::ext_equal]
pub ghost struct InstructionS {
    pub description: Seq<char>,
    pub ingredient_refs: Seq<Seq<char>>,
}

/// Mathematical mirror of [`Source`].
#[verifier::ext_equal]
pub ghost enum SourceS {
    Url(Seq<char>),
    Other(Seq<char>),
}

/// Mathematical mirror of [`Recipe`].
#[verifier::ext_equal]
pub ghost struct RecipeS {
    pub tags: Seq<Seq<char>>,
    pub ingredients: Seq<IngredientS>,
    pub equipment: Seq<Seq<char>>,
    pub instructions: Seq<InstructionS>,
    pub source: Option<SourceS>,
}

pub open spec fn deep_opt_str(o: Option<String>) -> Option<Seq<char>> {
    match o {
        Some(s) => Some(s@),
        None => None,
    }
}

impl Quantity {
    pub open spec fn deep(&self) -> QuantityS {
        match self {
            Quantity::Whole(i) => QuantityS::Whole(*i),
            Quantity::Fraction(b) => QuantityS::Fraction(*b),
        }
    }
}

impl Measurement {
    pub open spec fn deep(&self) -> MeasurementS {
        MeasurementS { quantity: self.quantity.deep(), unit: deep_opt_str(self.unit) }
    }
}

impl IngredientName {
    pub open spec fn deep(&self) -> IngredientNameS {
        IngredientNameS { name: self.name@, subtype: deep_opt_str(self.subtype) }
    }
}

impl Ingredient {
    pub open spec fn deep(&self) -> IngredientS {
        IngredientS {
            id: deep_opt_str(self.id),
            names: Seq::new(self.names@.len(), |i: int| self.names@[i].deep()),
            measurements: Seq::new(
                self.measurements@.len(),
                |i: int| self.measurements@[i].deep(),
            ),
            notes: self.notes.deep_view(),
        }
    }
}

impl Instruction {
    pub open spec fn deep(&self) -> InstructionS {
        InstructionS {
            description: self.description@,
            ingredient_refs: self.ingredient_refs.deep_view(),
        }
    }
}

impl Source {
    pub open spec fn deep(&self) -> SourceS {
        match self {
            Source::Url(s) => SourceS::Url(s@),
            Source::Other(s) => SourceS::Other(s@),
        }
    }
}

impl Recipe {
    pub open spec fn deep(&self) -> RecipeS {
        RecipeS {
            tags: self.tags.deep_view(),
            ingredients: Seq::new(self.ingredients@.len(), |i: int| self.ingredients@[i].deep()),
            equipment: self.equipment.deep_view(),
            instructions: Seq::new(
                self.instructions@.len(),
                |i: int| self.instructions@[i].deep(),
            ),
            source: match self.source {
                Some(s) => Some(s.deep()),
                None => None,
            },
        }
    }
}

} // verus!
