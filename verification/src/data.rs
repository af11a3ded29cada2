//! The runtime value of the language: the tagged datum every evaluation
//! produces.

use vstd::prelude::*;

use crate::number::{eq_bits, eq_number, format_number, number_text};

verus! {

/// A runtime value. `Number` holds the bit pattern of an IEEE 754 binary64
/// value; see `crate::number`.
#[derive(Debug, PartialEq)]
pub enum Data {
    Nil,
    Boolean(bool),
    Number(u64),
    Str(String),
}

/// The mathematical shape of a `Data` value: text is a sequence of
/// characters, everything else is as it stands.
pub enum DataV {
    Nil,
    Boolean(bool),
    Number(u64),
    Str(Seq<char>),
}

impl View for Data {
    type V = DataV;

    open spec fn view(&self) -> DataV {
        match self {
            Data::Nil => DataV::Nil,
            Data::Boolean(b) => DataV::Boolean(*b),
            Data::Number(n) => DataV::Number(*n),
            Data::Str(s) => DataV::Str(s@),
        }
    }
}

impl DeepView for Data {
    type V = DataV;

    open spec fn deep_view(&self) -> DataV {
        self.view()
    }
}

impl Clone for Data {
    fn clone(&self) -> (r: Data)
        ensures
            r == *self,
    {
        match self {
            Data::Nil => Data::Nil,
            Data::Boolean(b) => Data::Boolean(*b),
            Data::Number(n) => Data::Number(*n),
            Data::Str(s) => Data::Str(s.clone()),
        }
    }
}

/// The general truthiness rule of the language: `nil` and `false` are the
/// only falsy values.
pub open spec fn spec_to_bool(d: DataV) -> bool {
    match d {
        DataV::Nil => false,
        DataV::Boolean(b) => b,
        DataV::Number(_) => true,
        DataV::Str(_) => true,
    }
}

/// The name of a value's type, as the error messages report it.
pub open spec fn spec_type_text(d: DataV) -> Seq<char> {
    match d {
        DataV::Nil => "nil"@,
        DataV::Boolean(_) => "boolean"@,
        DataV::Number(_) => "number"@,
        DataV::Str(_) => "string"@,
    }
}

/// The display form of a value, as the `println` built-in writes it.
pub open spec fn spec_display(d: DataV) -> Seq<char> {
    match d {
        DataV::Nil => "nil"@,
        DataV::Boolean(b) => if b {
            "true"@
        } else {
            "false"@
        },
        DataV::Number(n) => number_text(n),
        DataV::Str(s) => s,
    }
}

/// Structural equality of two values, the meaning of the `==` operator:
/// numbers compare by IEEE 754 equality, values of different types are
/// simply unequal.
pub open spec fn spec_data_eq(a: DataV, b: DataV) -> bool {
    match (a, b) {
        (DataV::Nil, DataV::Nil) => true,
        (DataV::Boolean(x), DataV::Boolean(y)) => x == y,
        (DataV::Number(x), DataV::Number(y)) => eq_bits(x, y),
        (DataV::Str(x), DataV::Str(y)) => x == y,
        _ => false,
    }
}

/// The shapes of a list of values, in order.
pub open spec fn datas_view(s: Seq<Data>) -> Seq<DataV>
    decreases s.len(),
{
    if s.len() == 0 {
        Seq::empty()
    } else {
        datas_view(s.drop_last()).push(s.last()@)
    }
}

/// Facts about `datas_view` that proofs use: its length, and what stands
/// at each index.
pub proof fn lemma_datas_view(s: Seq<Data>)
    ensures
        datas_view(s).len() == s.len(),
        forall|i: int| 0 <= i < s.len() ==> datas_view(s)[i] == s[i]@,
    decreases s.len(),
{
    if s.len() > 0 {
        lemma_datas_view(s.drop_last());
        assert(forall|i: int| 0 <= i < s.len() - 1 ==> s.drop_last()[i] == s[i]);
    }
}

/// A value's view is `false` exactly when the value is `false`.
pub proof fn lemma_data_false(d: Data)
    ensures
        (d@ == DataV::Boolean(false)) <==> (d == Data::Boolean(false)),
{
    match d {
        Data::Nil => {},
        Data::Boolean(_) => {},
        Data::Number(_) => {},
        Data::Str(_) => {},
    }
}

impl Data {
    /// Whether the value counts as true under the general truthiness rule.
    pub fn to_bool(&self) -> (r: bool)
        ensures
            r == spec_to_bool(self@),
    {
        match self {
            Data::Nil => false,
            Data::Boolean(b) => *b,
            _ => true,
        }
    }

    /// The name of the value's type, as used in error messages.
    pub fn type_text(&self) -> (r: String)
        ensures
            r@ == spec_type_text(self@),
    {
        match self {
            Data::Nil => "nil".to_owned(),
            Data::Boolean(_) => "boolean".to_owned(),
            Data::Number(_) => "number".to_owned(),
            Data::Str(_) => "string".to_owned(),
        }
    }

    /// The display form of the value, as the `println` built-in writes it.
    pub fn display_text(&self) -> (r: String)
        ensures
            r@ == spec_display(self@),
    {
        match self {
            Data::Nil => "nil".to_owned(),
            Data::Boolean(b) => if *b {
                "true".to_owned()
            } else {
                "false".to_owned()
            },
            Data::Number(n) => format_number(*n),
            Data::Str(s) => s.clone(),
        }
    }

    /// Structural equality, the meaning of the `==` operator.
    pub fn data_eq(&self, other: &Data) -> (r: bool)
        ensures
            r == spec_data_eq(self@, other@),
    {
        match (self, other) {
            (Data::Nil, Data::Nil) => true,
            (Data::Boolean(x), Data::Boolean(y)) => *x == *y,
            (Data::Number(x), Data::Number(y)) => eq_number(*x, *y),
            (Data::Str(x), Data::Str(y)) => x.eq(y),
            _ => false,
        }
    }
}

} // verus!
