//! Parsing a strategy document's node tree into strategy definitions.
//!
//! A `strategy` node carries `name` and `summary` properties, an optional
//! `inherits` property, and children that are commands. Fatal diagnostics
//! short-circuit the containing strategy; warnings accumulate.

use vstd::prelude::*;

use crate::commands::{command_fatal, command_matches, is_command_name, parse_command, Command};
use crate::document::{Document, Node, Value};
use crate::errors::{Error, MissingProperty, ParseError, Severity, UnsupportedNode};

verus! {

/// A strategy definition: a name, a human-readable summary, an optional
/// parent, and the commands to execute.
#[derive(Debug)]
pub struct StrategyDefinition {
    /// The name of the strategy.
    pub name: String,
    /// A brief summary of the strategy.
    pub summary: String,
    /// The name of the strategy this one inherits from, if any.
    pub inherits: Option<String>,
    /// The commands to execute, in document order.
    pub commands: Vec<Command>,
}

/// A parser for provisioning strategies.
#[derive(Debug)]
pub struct Parser {
    /// The strategies the document defines, in document order.
    pub strategies: Vec<StrategyDefinition>,
}

/// The string a node's property carries, when it carries one.
pub open spec fn spec_property_str(node: Node, name: Seq<char>) -> Option<Seq<char>> {
    match node.spec_property(name) {
        Some(e) => match e.value {
            Value::Str(v) => Some(v@),
            _ => None,
        },
        None => None,
    }
}

/// Get a string property from a node; a missing property or a
/// non-string value is an error.
pub fn get_property_str(node: &Node, name: &str) -> (r: Result<String, Error>)
    ensures
        r is Ok <==> spec_property_str(*node, name@) is Some,
        r matches Ok(s) ==> spec_property_str(*node, name@) == Some(s@),
        node.spec_property(name@) is None ==> (r matches Err(e) && e is MissingProperty),
        node.spec_property(name@) matches Some(e) && !(e.value is Str) ==> (r matches Err(e2)
            && e2 is InvalidType),
        r matches Err(e3) ==> e3.spec_severity() is Error,
{
    let entry = match node.property(name) {
        Some(e) => e,
        None => {
            return Err(
                Error::MissingProperty(
                    MissingProperty {
                        at: node.span,
                        id: name.to_owned(),
                        advice: Some("bind the property with an equals sign".to_owned()),
                    },
                ),
            );
        },
    };
    match &entry.value {
        Value::Str(s) => Ok(s.clone()),
        _ => Err(
            Error::InvalidType(
                crate::errors::InvalidType {
                    at: entry.span,
                    expected_type: crate::types::KdlType::String,
                },
            ),
        ),
    }
}

/// The children carrying a command name, in document order.
pub open spec fn known_children(children: Seq<Node>) -> Seq<Node>
    decreases children.len(),
{
    if children.len() == 0 {
        Seq::empty()
    } else {
        let rest = known_children(children.drop_first());
        if is_command_name(children[0].name@) {
            seq![children[0]] + rest
        } else {
            rest
        }
    }
}

/// Appending one more child extends the command-named children with it
/// when its name is a command name and leaves them alone otherwise.
proof fn lemma_known_children_push(children: Seq<Node>, x: Node)
    ensures
        known_children(children.push(x)) == if is_command_name(x.name@) {
            known_children(children).push(x)
        } else {
            known_children(children)
        },
    decreases children.len(),
{
    let p = children.push(x);
    assert(known_children(Seq::<Node>::empty()) =~= Seq::<Node>::empty());
    if children.len() == 0 {
        assert(p[0] == x);
        assert(p.drop_first() =~= Seq::<Node>::empty());
        if is_command_name(x.name@) {
            assert(known_children(p) =~= known_children(children).push(x));
        } else {
            assert(known_children(p) =~= known_children(children));
        }
    } else {
        assert(p[0] == children[0]);
        assert(p.drop_first() =~= children.drop_first().push(x));
        lemma_known_children_push(children.drop_first(), x);
        if is_command_name(x.name@) {
            assert(known_children(p) =~= known_children(children).push(x));
        } else {
            assert(known_children(p) =~= known_children(children));
        }
    }
}

/// Does a `strategy` node fail to parse? Missing or non-string `name` or
/// `summary` properties, a present but non-string `inherits` property, or
/// any fatally malformed command child.
pub open spec fn strategy_fatal(node: Node) -> bool {
    ||| spec_property_str(node, "name"@) is None
    ||| spec_property_str(node, "summary"@) is None
    ||| (node.spec_property("inherits"@) is Some && spec_property_str(node, "inherits"@) is None)
    ||| exists|i: int|
        0 <= i < node.children@.len() && command_fatal(#[trigger] node.children@[i])
}

/// Does a parsed definition match its `strategy` node? Its name, summary
/// and optional parent are the node's properties, and its commands are
/// the command-named children's parses, in document order.
pub open spec fn strategy_matches(d: StrategyDefinition, node: Node) -> bool {
    &&& spec_property_str(node, "name"@) == Some(d.name@)
    &&& spec_property_str(node, "summary"@) == Some(d.summary@)
    &&& match node.spec_property("inherits"@) {
        Some(_) => d.inherits matches Some(i) && spec_property_str(node, "inherits"@) == Some(
            i@,
        ),
        None => d.inherits is None,
    }
    &&& d.commands@.len() == known_children(node.children@).len()
    &&& forall|i: int|
        0 <= i < d.commands@.len() ==> command_matches(
            #[trigger] d.commands@[i],
            known_children(node.children@)[i],
        )
}

impl Parser {
    /// Parse one `strategy` node: read its `name`, `summary` and optional
    /// `inherits` properties and its command children, collecting every
    /// diagnostic. It succeeds exactly when no fatal diagnostic arose —
    /// warnings alone permit the strategy — and the definition then
    /// matches the node, commands pinned to the command children's
    /// parses.
    pub fn parse_strategy(node: &Node) -> (r: Result<StrategyDefinition, Vec<Error>>)
        ensures
            r is Ok <==> !strategy_fatal(*node),
            r matches Ok(d) ==> strategy_matches(d, *node),
            r matches Err(es) ==> es@.len() > 0,
    {
        let mut errors: Vec<Error> = Vec::new();
        let mut had_fatal = false;
        let name = match get_property_str(node, "name") {
            Ok(n) => n,
            Err(e) => {
                had_fatal = true;
                errors.push(e);
                String::new()
            },
        };
        let summary = match get_property_str(node, "summary") {
            Ok(s) => s,
            Err(e) => {
                had_fatal = true;
                errors.push(e);
                String::new()
            },
        };
        let inherits = if node.property("inherits").is_some() {
            match get_property_str(node, "inherits") {
                Ok(i) => Some(i),
                Err(e) => {
                    had_fatal = true;
                    errors.push(e);
                    None
                },
            }
        } else {
            None
        };

        // collect the commands and every failure in this strategy
        let mut commands: Vec<Command> = Vec::new();
        let n = node.children.len();
        let mut i: usize = 0;
        proof {
            assert(node.children@.take(0) =~= Seq::<Node>::empty());
            assert(known_children(Seq::<Node>::empty()) =~= Seq::<Node>::empty());
        }
        while i < n
            invariant
                0 <= i <= n,
                n == node.children@.len(),
                errors@.len() >= 1 || !had_fatal,
                had_fatal ==> strategy_fatal(*node),
                !had_fatal ==> spec_property_str(*node, "name"@) == Some(name@),
                !had_fatal ==> spec_property_str(*node, "summary"@) == Some(summary@),
                !had_fatal ==> match node.spec_property("inherits"@) {
                    Some(_) => inherits matches Some(inh) && spec_property_str(
                        *node,
                        "inherits"@,
                    ) == Some(inh@),
                    None => inherits is None,
                },
                !had_fatal ==> forall|k: int|
                    0 <= k < i ==> !command_fatal(#[trigger] node.children@[k]),
                !had_fatal ==> commands@.len() == known_children(
                    node.children@.take(i as int),
                ).len(),
                !had_fatal ==> forall|k: int|
                    0 <= k < commands@.len() ==> command_matches(
                        #[trigger] commands@[k],
                        known_children(node.children@.take(i as int))[k],
                    ),
            decreases n - i,
        {
            proof {
                assert(node.children@.take(i + 1) =~= node.children@.take(i as int).push(
                    node.children@[i as int],
                ));
                lemma_known_children_push(node.children@.take(i as int), node.children@[i as int]);
            }
            match parse_command(&node.children[i]) {
                Ok(cmd) => {
                    commands.push(cmd);
                },
                Err(e) => {
                    match e.severity() {
                        Severity::Error => {
                            had_fatal = true;
                            proof {
                                assert(command_fatal(node.children@[i as int]));
                            }
                        },
                        Severity::Warning => {},
                    }
                    errors.push(e);
                },
            }
            i += 1;
        }

        // any fatal diagnostic fails the whole strategy
        proof {
            assert(node.children@.take(n as int) =~= node.children@);
        }
        if had_fatal {
            return Err(errors);
        }
        Ok(StrategyDefinition { name, summary, inherits, commands })
    }

    /// Parse a whole document: every top-level `strategy` node becomes a
    /// definition; any other top-level node is an unsupported-node
    /// diagnostic. It succeeds exactly when every node is a faultless
    /// strategy, one definition per node in order; with any diagnostics
    /// collected, the parse fails and reports them all under the given
    /// source name.
    pub fn from_document(src_name: String, document: &Document) -> (r: Result<Parser, ParseError>)
        ensures
            r is Ok <==> forall|i: int|
                0 <= i < document.nodes@.len() ==> (#[trigger] document.nodes@[i]).name@
                    == "strategy"@ && !strategy_fatal(document.nodes@[i]),
            r matches Ok(p) ==> p.strategies@.len() == document.nodes@.len() && forall|i: int|
                0 <= i < document.nodes@.len() ==> strategy_matches(
                    #[trigger] p.strategies@[i],
                    document.nodes@[i],
                ),
            r matches Err(e) ==> e.diagnostics@.len() > 0 && e.src_name == src_name,
    {
        let mut errors: Vec<Error> = Vec::new();
        let mut strategies: Vec<StrategyDefinition> = Vec::new();
        let n = document.nodes.len();
        let mut i: usize = 0;
        while i < n
            invariant
                0 <= i <= n,
                n == document.nodes@.len(),
                errors@.len() == 0 ==> strategies@.len() == i,
                errors@.len() == 0 ==> forall|k: int|
                    0 <= k < i ==> (#[trigger] document.nodes@[k]).name@ == "strategy"@
                        && !strategy_fatal(document.nodes@[k]),
                errors@.len() == 0 ==> forall|k: int|
                    0 <= k < i ==> strategy_matches(
                        #[trigger] strategies@[k],
                        document.nodes@[k],
                    ),
                errors@.len() > 0 ==> exists|k: int|
                    0 <= k < i && ((#[trigger] document.nodes@[k]).name@ != "strategy"@
                        || strategy_fatal(document.nodes@[k])),
            decreases n - i,
        {
            proof {
                reveal_strlit("strategy");
            }
            let node = &document.nodes[i];
            if crate::document::str_eq(node.name.as_str(), "strategy") {
                match Self::parse_strategy(node) {
                    Ok(strategy) => {
                        strategies.push(strategy);
                    },
                    Err(mut es) => {
                        errors.append(&mut es);
                    },
                }
            } else {
                errors.push(
                    Error::UnsupportedNode(
                        UnsupportedNode { at: node.span, name: node.name.clone() },
                    ),
                );
            }
            i += 1;
        }
        if errors.len() > 0 {
            return Err(ParseError { src_name, diagnostics: errors });
        }
        Ok(Parser { strategies })
    }
}

} // verus!
