//! Literals: a text with a datatype or a language tag, or a floating point
//! number held by its bits.

use crate::model::named_node::NamedNode;
use crate::model::vocab::{
    rdf_lang_string, xsd_double, xsd_float, xsd_string, RDF_LANG_STRING, XSD_DOUBLE, XSD_FLOAT,
    XSD_STRING,
};
use crate::model::xsd::{is_float_lexical, is_float_text};
use crate::text::str_eq;
use vstd::prelude::*;
use vstd::utf8::encode_utf8;

verus! {

/// What a literal is. A number of type `xsd:float` or `xsd:double` is held
/// by the bits of its IEEE 754 value; every other literal by its text.
#[allow(inconsistent_fields)]
pub enum LiteralView {
    Simple { value: Seq<char> },
    LanguageTagged { value: Seq<char>, language: Seq<char> },
    Typed { value: Seq<char>, datatype: Seq<char> },
    Float { bits: u32 },
    Double { bits: u64 },
}

impl LiteralView {
    /// The datatype IRI of the literal.
    pub open spec fn datatype(self) -> Seq<char> {
        match self {
            LiteralView::Simple { .. } => xsd_string(),
            LiteralView::LanguageTagged { .. } => rdf_lang_string(),
            LiteralView::Typed { datatype, .. } => datatype,
            LiteralView::Float { .. } => xsd_float(),
            LiteralView::Double { .. } => xsd_double(),
        }
    }

    /// The text of the literal; empty for a number held by its bits.
    pub open spec fn value(self) -> Seq<char> {
        match self {
            LiteralView::Simple { value } => value,
            LiteralView::LanguageTagged { value, .. } => value,
            LiteralView::Typed { value, .. } => value,
            _ => Seq::empty(),
        }
    }

    /// The language tag of the literal, if it has one.
    pub open spec fn language(self) -> Option<Seq<char>> {
        match self {
            LiteralView::LanguageTagged { language, .. } => Some(language),
            _ => None,
        }
    }

    /// A typed literal never has the datatype `xsd:string`: such a literal
    /// is a simple one.
    pub open spec fn wf(self) -> bool {
        match self {
            LiteralView::Typed { datatype, .. } => datatype != xsd_string(),
            _ => true,
        }
    }
}

/// Whether a text with a datatype denotes a floating point number: the
/// datatype is `xsd:float` or `xsd:double`, and the text is in their lexical
/// space.
pub open spec fn denotes_float(value: Seq<char>, datatype: Seq<char>) -> bool {
    (datatype == xsd_float() || datatype == xsd_double()) && is_float_lexical(
        encode_utf8(value),
    )
}

/// The literal of a text and a datatype.
pub open spec fn typed_literal_of(value: Seq<char>, datatype: Seq<char>) -> LiteralView {
    if datatype == xsd_string() {
        LiteralView::Simple { value }
    } else {
        LiteralView::Typed { value, datatype }
    }
}

#[derive(Clone, Debug, PartialEq, Eq, Hash)]
enum LiteralContent {
    Simple(String),
    LanguageTagged { value: String, language: String },
    Typed { value: String, datatype: NamedNode },
    Float(u32),
    Double(u64),
}

/// How a literal is held: by its text, or by the bits of its value.
#[derive(Clone, Copy, Debug)]
pub enum LiteralForm<'a> {
    Text(&'a str),
    Float(u32),
    Double(u64),
}

/// A literal.
#[derive(Clone, Debug, PartialEq, Eq, Hash)]
pub struct Literal {
    content: LiteralContent,
}

impl View for Literal {
    type V = LiteralView;

    closed spec fn view(&self) -> LiteralView {
        match self.content {
            LiteralContent::Simple(value) => LiteralView::Simple { value: value@ },
            LiteralContent::LanguageTagged { value, language } => LiteralView::LanguageTagged {
                value: value@,
                language: language@,
            },
            LiteralContent::Typed { value, datatype } => LiteralView::Typed {
                value: value@,
                datatype: datatype@,
            },
            LiteralContent::Float(bits) => LiteralView::Float { bits },
            LiteralContent::Double(bits) => LiteralView::Double { bits },
        }
    }
}

impl Literal {
    /// A literal of type `xsd:string`.
    pub fn new_simple_literal(value: String) -> (r: Self)
        ensures
            r@ == (LiteralView::Simple { value: value@ }),
    {
        Self { content: LiteralContent::Simple(value) }
    }

    /// A literal of a text and a datatype. With `xsd:string` it is the
    /// simple literal of the text. A text of the lexical space of `xsd:float`
    /// or `xsd:double` with that datatype denotes a number, and the literal
    /// of a number is made from the bits of its value, by `from_float_bits`
    /// or `from_double_bits`: such a text is not taken here.
    pub fn new_typed_literal(value: String, datatype: NamedNode) -> (r: Self)
        requires
            !denotes_float(value@, datatype@),
        ensures
            r@ == typed_literal_of(value@, datatype@),
            r@.wf(),
    {
        Self::held(value, datatype)
    }

    /// A literal of a text and a datatype, where the text does not denote a
    /// floating point number; none where it does, and the literal is to be
    /// made from the bits of the value.
    pub fn try_new_typed_literal(value: String, datatype: NamedNode) -> (r: Option<Self>)
        ensures
            r is Some <==> !denotes_float(value@, datatype@),
            r matches Some(literal) ==> literal@ == typed_literal_of(value@, datatype@)
                && literal@.wf(),
    {
        let floating = str_eq(datatype.as_str(), XSD_FLOAT) || str_eq(
            datatype.as_str(),
            XSD_DOUBLE,
        );
        if floating && is_float_text(value.as_str()) {
            None
        } else {
            Some(Self::new_typed_literal(value, datatype))
        }
    }

    /// The literal of a text and a datatype as the store holds them: the
    /// text is kept as it is, whatever it denotes.
    pub(crate) fn held(value: String, datatype: NamedNode) -> (r: Self)
        ensures
            r@ == typed_literal_of(value@, datatype@),
            r@.wf(),
    {
        if str_eq(datatype.as_str(), XSD_STRING) {
            Self { content: LiteralContent::Simple(value) }
        } else {
            Self { content: LiteralContent::Typed { value, datatype } }
        }
    }

    /// A literal with a language tag, taken as it is.
    pub fn new_language_tagged_literal_unchecked(value: String, language: String) -> (r: Self)
        ensures
            r@ == (LiteralView::LanguageTagged { value: value@, language: language@ }),
    {
        Self { content: LiteralContent::LanguageTagged { value, language } }
    }

    /// The `xsd:float` with the given IEEE 754 bits.
    pub fn from_float_bits(bits: u32) -> (r: Self)
        ensures
            r@ == (LiteralView::Float { bits }),
    {
        Self { content: LiteralContent::Float(bits) }
    }

    /// The `xsd:double` with the given IEEE 754 bits.
    pub fn from_double_bits(bits: u64) -> (r: Self)
        ensures
            r@ == (LiteralView::Double { bits }),
    {
        Self { content: LiteralContent::Double(bits) }
    }

    /// How the literal is held: its text, or the bits of its value.
    pub fn form(&self) -> (r: LiteralForm<'_>)
        ensures
            match r {
                LiteralForm::Text(value) => value@ == self@.value() && !(self@ is Float) && !(
                self@ is Double),
                LiteralForm::Float(bits) => self@ == (LiteralView::Float { bits }),
                LiteralForm::Double(bits) => self@ == (LiteralView::Double { bits }),
            },
    {
        match &self.content {
            LiteralContent::Simple(value) => LiteralForm::Text(value.as_str()),
            LiteralContent::LanguageTagged { value, .. } => LiteralForm::Text(value.as_str()),
            LiteralContent::Typed { value, .. } => LiteralForm::Text(value.as_str()),
            LiteralContent::Float(bits) => LiteralForm::Float(*bits),
            LiteralContent::Double(bits) => LiteralForm::Double(*bits),
        }
    }

    /// Whether the literal is held by its text with a datatype of its own.
    pub fn is_typed_text(&self) -> (r: bool)
        ensures
            r == (self@ is Typed),
    {
        match &self.content {
            LiteralContent::Typed { .. } => true,
            _ => false,
        }
    }

    /// The text of the literal; none for a number held by its bits.
    pub fn value(&self) -> (r: Option<&str>)
        ensures
            match self@ {
                LiteralView::Simple { value } => r is Some && r.unwrap()@ == value,
                LiteralView::LanguageTagged { value, .. } => r is Some && r.unwrap()@ == value,
                LiteralView::Typed { value, .. } => r is Some && r.unwrap()@ == value,
                LiteralView::Float { .. } => r is None,
                LiteralView::Double { .. } => r is None,
            },
    {
        match &self.content {
            LiteralContent::Simple(value) => Some(value.as_str()),
            LiteralContent::LanguageTagged { value, .. } => Some(value.as_str()),
            LiteralContent::Typed { value, .. } => Some(value.as_str()),
            LiteralContent::Float(_) => None,
            LiteralContent::Double(_) => None,
        }
    }

    /// The language tag of the literal, if it has one.
    pub fn language(&self) -> (r: Option<&str>)
        ensures
            r is Some <==> self@.language() is Some,
            r matches Some(tag) ==> Some(tag@) == self@.language(),
    {
        match &self.content {
            LiteralContent::LanguageTagged { language, .. } => Some(language.as_str()),
            _ => None,
        }
    }

    /// The datatype IRI of the literal.
    pub fn datatype(&self) -> (r: &str)
        ensures
            r@ == self@.datatype(),
    {
        match &self.content {
            LiteralContent::Simple(_) => XSD_STRING,
            LiteralContent::LanguageTagged { .. } => RDF_LANG_STRING,
            LiteralContent::Typed { datatype, .. } => datatype.as_str(),
            LiteralContent::Float(_) => XSD_FLOAT,
            LiteralContent::Double(_) => XSD_DOUBLE,
        }
    }

    /// The bits of the literal, if it is an `xsd:float` held by its bits.
    pub fn float_bits(&self) -> (r: Option<u32>)
        ensures
            r == match self@ {
                LiteralView::Float { bits } => Some(bits),
                _ => None::<u32>,
            },
    {
        match &self.content {
            LiteralContent::Float(bits) => Some(*bits),
            _ => None,
        }
    }

    /// The bits of the literal, if it is an `xsd:double` held by its bits.
    pub fn double_bits(&self) -> (r: Option<u64>)
        ensures
            r == match self@ {
                LiteralView::Double { bits } => Some(bits),
                _ => None::<u64>,
            },
    {
        match &self.content {
            LiteralContent::Double(bits) => Some(*bits),
            _ => None,
        }
    }

    /// A copy of the literal.
    pub fn duplicate(&self) -> (r: Self)
        ensures
            r@ == self@,
    {
        match &self.content {
            LiteralContent::Simple(value) => Self { content: LiteralContent::Simple(value.clone()) },
            LiteralContent::LanguageTagged { value, language } => Self {
                content: LiteralContent::LanguageTagged {
                    value: value.clone(),
                    language: language.clone(),
                },
            },
            LiteralContent::Typed { value, datatype } => Self {
                content: LiteralContent::Typed {
                    value: value.clone(),
                    datatype: datatype.duplicate(),
                },
            },
            LiteralContent::Float(bits) => Self { content: LiteralContent::Float(*bits) },
            LiteralContent::Double(bits) => Self { content: LiteralContent::Double(*bits) },
        }
    }

    /// Whether two literals are the same.
    pub fn same(&self, other: &Self) -> (r: bool)
        ensures
            r == (self@ == other@),
    {
        match (&self.content, &other.content) {
            (LiteralContent::Simple(a), LiteralContent::Simple(b)) => *a == *b,
            (
                LiteralContent::LanguageTagged { value: a, language: x },
                LiteralContent::LanguageTagged { value: b, language: y },
            ) => *a == *b && *x == *y,
            (
                LiteralContent::Typed { value: a, datatype: x },
                LiteralContent::Typed { value: b, datatype: y },
            ) => *a == *b && x.same(y),
            (LiteralContent::Float(a), LiteralContent::Float(b)) => *a == *b,
            (LiteralContent::Double(a), LiteralContent::Double(b)) => *a == *b,
            _ => false,
        }
    }
}

} // verus!
