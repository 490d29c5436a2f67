//! The printer: the text that shows a value.

use crate::syntax::{Value, ValueView};
use vstd::prelude::*;
use vstd::string::*;

verus! {

/// The text that shows a value: an atom shows as its name, a pair as its two
/// sides in parentheses with one space between them, and a closure as a
/// fixed word that tells nothing of what is in it.
pub open spec fn render(value: ValueView) -> Seq<char>
    decreases value,
{
    match value {
        ValueView::Symbol(name) => name,
        ValueView::Pair(car, cdr) => "("@ + render(*car) + " "@ + render(*cdr) + ")"@,
        ValueView::Closure(_, _, _) => "<closure>"@,
    }
}

/// The text that shows `value`.
pub fn to_string_value(value: &Value) -> (r: String)
    ensures
        r@ == render(value@),
    decreases value,
{
    match value {
        Value::Symbol(name) => name.clone(),
        Value::Pair(car, cdr) => {
            let mut text = String::from_str("(");
            text.append(to_string_value(car).as_str());
            text.append(" ");
            text.append(to_string_value(cdr).as_str());
            text.append(")");
            text
        },
        Value::Closure(_, _, _) => String::from_str("<closure>"),
    }
}

} // verus!
