//! The `find-disk` command: bind a pool disk satisfying optional size
//! constraints to a name.

use vstd::prelude::*;

use crate::document::{spec_arguments, Node, Value};
use crate::errors::{Error, InvalidArguments, InvalidType};
use crate::types::{spec_constraints, Constraints, KdlType};

verus! {

/// Command to find a disk and bind it under a name.
#[derive(Debug)]
pub struct Command {
    /// The name the disk is bound to.
    pub name: String,
    /// Size constraints the disk must satisfy, if any.
    pub constraints: Option<Constraints>,
}

/// What a `find-disk` node means, when it is well formed: its binding
/// name (exactly one positional string argument) and its optional
/// constraints.
pub open spec fn spec_parse(node: Node) -> Option<(Seq<char>, Option<Constraints>)> {
    let args = spec_arguments(node.entries@);
    if args.len() != 1 {
        None
    } else {
        match args[0].value {
            Value::Str(s) => match node.spec_child("constraints"@) {
                Some(c) => match spec_constraints(c) {
                    Some(cc) => Some((s@, Some(cc))),
                    None => None,
                },
                None => Some((s@, None::<Constraints>)),
            },
            _ => None,
        }
    }
}

/// Parse a `find-disk` node: exactly one positional string argument (the
/// binding name), and an optional `constraints` child, exactly as
/// [`spec_parse`] decides them.
pub fn parse(node: &Node) -> (r: Result<Command, Error>)
    ensures
        r is Ok <==> spec_parse(*node) is Some,
        r matches Ok(c) ==> spec_parse(*node) == Some((c.name@, c.constraints)),
        spec_arguments(node.entries@).len() == 0 ==> (r matches Err(e)
            && e is InvalidArguments),
        spec_arguments(node.entries@).len() > 1 ==> (r matches Err(e) && e is InvalidArguments),
        r matches Err(e2) ==> e2.spec_severity() is Error,
{
    let count = node.argument_count();
    if count == 0 {
        return Err(
            Error::InvalidArguments(
                InvalidArguments {
                    at: node.span,
                    advice: Some(
                        "find-disk <name> - you must provide a name to store the object".to_owned(),
                    ),
                },
            ),
        );
    }
    if count > 1 {
        return Err(
            Error::InvalidArguments(
                InvalidArguments {
                    at: node.span,
                    advice: Some("find-disk <name> - only one positional argument supported".to_owned()),
                },
            ),
        );
    }
    let entry = match node.argument(0) {
        Some(e) => e,
        None => {
            return Err(
                Error::InvalidArguments(
                    InvalidArguments {
                        at: node.span,
                        advice: Some("find-disk <name> - you must provide a name to store the object".to_owned()),
                    },
                ),
            );
        },
    };
    let name = match &entry.value {
        Value::Str(s) => s.clone(),
        _ => {
            return Err(
                Error::InvalidType(
                    InvalidType { at: entry.span, expected_type: KdlType::String },
                ),
            );
        },
    };
    let constraints = match node.child("constraints") {
        Some(cnode) => match Constraints::from_kdl_node(cnode) {
            Ok(c) => Some(c),
            Err(e) => {
                return Err(e);
            },
        },
        None => None,
    };
    Ok(Command { name, constraints })
}

} // verus!
