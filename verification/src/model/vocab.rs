//! The datatype IRIs that the store knows.

use crate::text::str_eq;
use vstd::prelude::*;

verus! {

pub open spec fn rdf_lang_string() -> Seq<char> {
    "http://www.w3.org/1999/02/22-rdf-syntax-ns#langString"@
}

pub open spec fn xsd_string() -> Seq<char> {
    "http://www.w3.org/2001/XMLSchema#string"@
}

pub open spec fn xsd_boolean() -> Seq<char> {
    "http://www.w3.org/2001/XMLSchema#boolean"@
}

pub open spec fn xsd_float() -> Seq<char> {
    "http://www.w3.org/2001/XMLSchema#float"@
}

pub open spec fn xsd_double() -> Seq<char> {
    "http://www.w3.org/2001/XMLSchema#double"@
}

pub open spec fn xsd_integer() -> Seq<char> {
    "http://www.w3.org/2001/XMLSchema#integer"@
}

pub open spec fn xsd_decimal() -> Seq<char> {
    "http://www.w3.org/2001/XMLSchema#decimal"@
}

pub open spec fn xsd_date_time() -> Seq<char> {
    "http://www.w3.org/2001/XMLSchema#dateTime"@
}

pub open spec fn xsd_date_time_stamp() -> Seq<char> {
    "http://www.w3.org/2001/XMLSchema#dateTimeStamp"@
}

pub open spec fn xsd_time() -> Seq<char> {
    "http://www.w3.org/2001/XMLSchema#time"@
}

pub open spec fn xsd_date() -> Seq<char> {
    "http://www.w3.org/2001/XMLSchema#date"@
}

pub open spec fn xsd_g_year_month() -> Seq<char> {
    "http://www.w3.org/2001/XMLSchema#gYearMonth"@
}

pub open spec fn xsd_g_year() -> Seq<char> {
    "http://www.w3.org/2001/XMLSchema#gYear"@
}

pub open spec fn xsd_g_month_day() -> Seq<char> {
    "http://www.w3.org/2001/XMLSchema#gMonthDay"@
}

pub open spec fn xsd_g_day() -> Seq<char> {
    "http://www.w3.org/2001/XMLSchema#gDay"@
}

pub open spec fn xsd_g_month() -> Seq<char> {
    "http://www.w3.org/2001/XMLSchema#gMonth"@
}

pub open spec fn xsd_duration() -> Seq<char> {
    "http://www.w3.org/2001/XMLSchema#duration"@
}

pub open spec fn xsd_year_month_duration() -> Seq<char> {
    "http://www.w3.org/2001/XMLSchema#yearMonthDuration"@
}

pub open spec fn xsd_day_time_duration() -> Seq<char> {
    "http://www.w3.org/2001/XMLSchema#dayTimeDuration"@
}

pub const XSD_DATE_TIME: &'static str = "http://www.w3.org/2001/XMLSchema#dateTime";

pub const XSD_DATE_TIME_STAMP: &'static str = "http://www.w3.org/2001/XMLSchema#dateTimeStamp";

pub const XSD_TIME: &'static str = "http://www.w3.org/2001/XMLSchema#time";

pub const XSD_DATE: &'static str = "http://www.w3.org/2001/XMLSchema#date";

pub const XSD_G_YEAR_MONTH: &'static str = "http://www.w3.org/2001/XMLSchema#gYearMonth";

pub const XSD_G_YEAR: &'static str = "http://www.w3.org/2001/XMLSchema#gYear";

pub const XSD_G_MONTH_DAY: &'static str = "http://www.w3.org/2001/XMLSchema#gMonthDay";

pub const XSD_G_DAY: &'static str = "http://www.w3.org/2001/XMLSchema#gDay";

pub const XSD_G_MONTH: &'static str = "http://www.w3.org/2001/XMLSchema#gMonth";

pub const XSD_DURATION: &'static str = "http://www.w3.org/2001/XMLSchema#duration";

pub const XSD_YEAR_MONTH_DURATION: &'static str = "http://www.w3.org/2001/XMLSchema#yearMonthDuration";

pub const XSD_DAY_TIME_DURATION: &'static str = "http://www.w3.org/2001/XMLSchema#dayTimeDuration";

/// Whether a datatype is `xsd:integer` or one of the twelve types derived
/// from it whose values the store keeps as integers.
pub open spec fn is_integer_datatype(datatype: Seq<char>) -> bool {
    ||| datatype == "http://www.w3.org/2001/XMLSchema#integer"@
    ||| datatype == "http://www.w3.org/2001/XMLSchema#byte"@
    ||| datatype == "http://www.w3.org/2001/XMLSchema#short"@
    ||| datatype == "http://www.w3.org/2001/XMLSchema#int"@
    ||| datatype == "http://www.w3.org/2001/XMLSchema#long"@
    ||| datatype == "http://www.w3.org/2001/XMLSchema#unsignedByte"@
    ||| datatype == "http://www.w3.org/2001/XMLSchema#unsignedShort"@
    ||| datatype == "http://www.w3.org/2001/XMLSchema#unsignedInt"@
    ||| datatype == "http://www.w3.org/2001/XMLSchema#unsignedLong"@
    ||| datatype == "http://www.w3.org/2001/XMLSchema#positiveInteger"@
    ||| datatype == "http://www.w3.org/2001/XMLSchema#negativeInteger"@
    ||| datatype == "http://www.w3.org/2001/XMLSchema#nonPositiveInteger"@
    ||| datatype == "http://www.w3.org/2001/XMLSchema#nonNegativeInteger"@
}

pub const RDF_LANG_STRING: &'static str = "http://www.w3.org/1999/02/22-rdf-syntax-ns#langString";

pub const XSD_STRING: &'static str = "http://www.w3.org/2001/XMLSchema#string";

pub const XSD_BOOLEAN: &'static str = "http://www.w3.org/2001/XMLSchema#boolean";

pub const XSD_FLOAT: &'static str = "http://www.w3.org/2001/XMLSchema#float";

pub const XSD_DOUBLE: &'static str = "http://www.w3.org/2001/XMLSchema#double";

pub const XSD_INTEGER: &'static str = "http://www.w3.org/2001/XMLSchema#integer";

pub const XSD_DECIMAL: &'static str = "http://www.w3.org/2001/XMLSchema#decimal";

pub fn names_integer_datatype(datatype: &str) -> (r: bool)
    ensures
        r == is_integer_datatype(datatype@),
{
    str_eq(datatype, "http://www.w3.org/2001/XMLSchema#integer") || str_eq(
        datatype,
        "http://www.w3.org/2001/XMLSchema#byte",
    ) || str_eq(datatype, "http://www.w3.org/2001/XMLSchema#short") || str_eq(
        datatype,
        "http://www.w3.org/2001/XMLSchema#int",
    ) || str_eq(datatype, "http://www.w3.org/2001/XMLSchema#long") || str_eq(
        datatype,
        "http://www.w3.org/2001/XMLSchema#unsignedByte",
    ) || str_eq(datatype, "http://www.w3.org/2001/XMLSchema#unsignedShort") || str_eq(
        datatype,
        "http://www.w3.org/2001/XMLSchema#unsignedInt",
    ) || str_eq(datatype, "http://www.w3.org/2001/XMLSchema#unsignedLong") || str_eq(
        datatype,
        "http://www.w3.org/2001/XMLSchema#positiveInteger",
    ) || str_eq(datatype, "http://www.w3.org/2001/XMLSchema#negativeInteger") || str_eq(
        datatype,
        "http://www.w3.org/2001/XMLSchema#nonPositiveInteger",
    ) || str_eq(datatype, "http://www.w3.org/2001/XMLSchema#nonNegativeInteger")
}

} // verus!
