//! Structural records of the kernel metamodel layer.
//!
//! Each record carries the attributes common to its metamodel concept and
//! composes the concept it extends, so that the element records of the main
//! dialect can embed them without deep inheritance chains.

use vstd::prelude::*;

verus! {

/// The root concept: a named, possibly abstract type.
#[derive(Debug, Clone, PartialEq, Eq)]
pub struct Type {
    pub name: Option<String>,
    pub is_abstract: bool,
}

/// A classifier of instances.
#[derive(Debug, Clone, PartialEq, Eq)]
pub struct Classifier {
    pub base: Type,
}

/// A feature of a type, with ordering and uniqueness markers.
#[derive(Debug, Clone, PartialEq, Eq)]
pub struct Feature {
    pub base: Type,
    pub is_unique: bool,
    pub is_ordered: bool,
}

/// A classifier of occurrences.
#[derive(Debug, Clone, PartialEq, Eq)]
pub struct Class {
    pub classifier: Classifier,
}

/// A classifier of values.
#[derive(Debug, Clone, PartialEq, Eq)]
pub struct DataType {
    pub classifier: Classifier,
}

/// A class of structured objects.
#[derive(Debug, Clone, PartialEq, Eq)]
pub struct Structure {
    pub class: Class,
}

/// A structure that is also an association between types.
#[derive(Debug, Clone, PartialEq, Eq)]
pub struct AssociationStructure {
    pub structure: Structure,
}

/// A class of performances.
#[derive(Debug, Clone, PartialEq, Eq)]
pub struct Behavior {
    pub class: Class,
}

/// A feature that is a step of a behavior.
#[derive(Debug, Clone, PartialEq, Eq)]
pub struct Step {
    pub feature: Feature,
}

/// A behavior that computes a result.
#[derive(Debug, Clone, PartialEq, Eq)]
pub struct SysMLFunction {
    pub behavior: Behavior,
}

/// A step that evaluates to a value.
#[derive(Debug, Clone, PartialEq, Eq)]
pub struct Expression {
    pub step: Step,
}

/// An expression with a truth value.
#[derive(Debug, Clone, PartialEq, Eq)]
pub struct BooleanExpression {
    pub expression: Expression,
}

/// A function with a truth-valued result.
#[derive(Debug, Clone, PartialEq, Eq)]
pub struct Predicate {
    pub function: SysMLFunction,
}

/// A boolean expression asserted to hold.
#[derive(Debug, Clone, PartialEq, Eq)]
pub struct Invariant {
    pub boolean_expression: BooleanExpression,
}

/// A feature connecting other features.
#[derive(Debug, Clone, PartialEq, Eq)]
pub struct Connector {
    pub feature: Feature,
}

/// A connector that binds its ends to the same value.
#[derive(Debug, Clone, PartialEq, Eq)]
pub struct BindingConnector {
    pub connector: Connector,
}

/// A connector ordering its ends in time.
#[derive(Debug, Clone, PartialEq, Eq)]
pub struct Succession {
    pub connector: Connector,
}

/// A behavior carried by an association.
#[derive(Debug, Clone, PartialEq, Eq)]
pub struct Interaction {
    pub behavior: Behavior,
}

/// A connector moving items between its ends.
#[derive(Debug, Clone, PartialEq, Eq)]
pub struct ItemFlow {
    pub connector: Connector,
    pub step: Step,
}

/// An item flow whose transfer is also a succession.
#[derive(Debug, Clone, PartialEq, Eq)]
pub struct SuccessionItemFlow {
    pub item_flow: ItemFlow,
    pub succession: Succession,
}

/// A structure whose instances are metaobjects.
#[derive(Debug, Clone, PartialEq, Eq)]
pub struct Metaclass {
    pub structure: Structure,
}

/// A feature holding metadata about its owner.
#[derive(Debug, Clone, PartialEq, Eq)]
pub struct MetadataFeature {
    pub feature: Feature,
}

/// A membership of an element in a namespace, by name.
#[derive(Debug, Clone, PartialEq, Eq)]
pub struct Membership {
    pub member_name: Option<String>,
}

/// A membership owning its member.
#[derive(Debug, Clone, PartialEq, Eq)]
pub struct OwningMembership {
    pub membership: Membership,
}

/// A membership of a feature in its featuring type.
#[derive(Debug, Clone, PartialEq, Eq)]
pub struct FeatureMembership {
    pub owning_membership: OwningMembership,
}

/// A membership of a parameter in its behavior or step.
#[derive(Debug, Clone, PartialEq, Eq)]
pub struct ParameterMembership {
    pub owning_membership: OwningMembership,
}

/// A typing of a feature by a type, named as written.
#[derive(Debug, Clone, PartialEq, Eq)]
pub struct FeatureTyping {
    pub typed_feature: Option<String>,
    pub general_type: Option<String>,
}

/// A conjugation of a type with its original.
#[derive(Debug, Clone, PartialEq, Eq)]
pub struct Conjugation {
    pub original_type: Option<String>,
}

/// An import of another namespace's members.
#[derive(Debug, Clone, PartialEq, Eq)]
pub struct Import {
    pub imported: Option<String>,
    pub is_recursive: bool,
}

/// An import of a single membership.
#[derive(Debug, Clone, PartialEq, Eq)]
pub struct MembershipImport {
    pub import: Import,
}

/// An import of a whole namespace.
#[derive(Debug, Clone, PartialEq, Eq)]
pub struct NamespaceImport {
    pub import: Import,
}

/// A reference to a classifier by name, as written.
#[derive(Debug, Clone, PartialEq, Eq)]
pub struct ClassifierReference {
    pub name: Option<String>,
}

/// An expression invoking a function by name.
#[derive(Debug, Clone, PartialEq, Eq)]
pub struct InvocationExpression {
    pub expression: Expression,
    pub invoked: Option<String>,
}

} // verus!
