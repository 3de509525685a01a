//! Generated-script building blocks: mutable variable declarations and
//! conditional components.

use vstd::prelude::*;

verus! {

/// A literal value a generated script can hold.
#[derive(Debug, Clone)]
pub enum Value {
    Integer(i64),
    Text(String),
}

/// How a property is set in a generated script.
#[derive(Debug, Clone)]
pub enum SetPropertyValue {
    Value(Value),
}

/// A mutable variable of a generated component.
#[derive(Debug)]
pub struct MutableVariable {
    pub name: String,
    pub value: SetPropertyValue,
    pub prefix: Option<String>,
}

/// A mutable list of a generated component.
#[derive(Debug)]
pub struct MutableList {
    pub name: String,
    pub value: SetPropertyValue,
    pub prefix: Option<String>,
}

/// One statement of a generated component.
#[derive(Debug)]
pub enum ComponentStatement {
    MutableVariable(MutableVariable),
    MutableList(MutableList),
}

/// One node of a parsed condition expression: an operator applied to its
/// children.
#[derive(Debug)]
pub struct ExprNode {
    pub operator: String,
    pub children: Vec<ExprNode>,
}

/// A component rendered only while its condition holds.
#[derive(Debug)]
pub struct ConditionalComponent {
    pub deps: Vec<String>,
    pub condition: ExprNode,
    pub statements: Vec<ComponentStatement>,
    pub parent: String,
    pub should_return: bool,
}

/// Declares a mutable integer variable, with no prefix.
pub fn mutable_integer(name: &str, value: i64) -> (r: ComponentStatement)
    ensures
        r matches ComponentStatement::MutableVariable(v) && v.name@ == name@ && (
        v.value matches SetPropertyValue::Value(Value::Integer(n)) && n == value) && v.prefix
            is None,
{
    ComponentStatement::MutableVariable(
        MutableVariable {
            name: String::from_str(name),
            value: SetPropertyValue::Value(Value::Integer(value)),
            prefix: None,
        },
    )
}

/// Declares a mutable text variable, with no prefix.
pub fn mutable_string(name: &str, value: &str) -> (r: ComponentStatement)
    ensures
        r matches ComponentStatement::MutableVariable(v) && v.name@ == name@ && (
        v.value matches SetPropertyValue::Value(Value::Text(s)) && s@ == value@) && v.prefix
            is None,
{
    ComponentStatement::MutableVariable(
        MutableVariable {
            name: String::from_str(name),
            value: SetPropertyValue::Value(Value::Text(String::from_str(value))),
            prefix: None,
        },
    )
}

} // verus!
