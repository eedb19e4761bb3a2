//! Strategy-document parsing and provisioner planning over the node
//! model.

use provisioning::commands::Command;
use provisioning::device::BlockDevice;
use provisioning::document::{Document, Entry, Node, SourceSpan, Value};
use provisioning::errors::{Error, Severity};
use provisioning::mock::MockDisk;
use provisioning::parser::Parser;
use provisioning::provisioner::Provisioner;
use provisioning::types::{
    entry_storage_size, Constraints, KdlType, PartitionRole, PartitionTableType, StorageUnit,
};

const GIB: u64 = 1024 * 1024 * 1024;
const MIB: u64 = 1024 * 1024;

fn span() -> SourceSpan {
    SourceSpan { offset: 0, len: 0 }
}

fn prop(name: &str, value: &str) -> Entry {
    Entry {
        name: Some(name.to_owned()),
        ty: None,
        value: Value::Str(value.to_owned()),
        span: span(),
    }
}

fn arg_int(value: i128, unit: Option<&str>) -> Entry {
    Entry {
        name: None,
        ty: unit.map(|u| u.to_owned()),
        value: Value::Int(value),
        span: span(),
    }
}

fn arg_str(value: &str) -> Entry {
    Entry {
        name: None,
        ty: None,
        value: Value::Str(value.to_owned()),
        span: span(),
    }
}

fn node(name: &str, entries: Vec<Entry>, children: Vec<Node>) -> Node {
    Node {
        name: name.to_owned(),
        span: span(),
        entries,
        children,
    }
}

/// `constraints { <child> }` with one sizing child node.
fn constraints_child(kind: &str, entries: Vec<Entry>) -> Node {
    node("constraints", Vec::new(), vec![node(kind, entries, Vec::new())])
}

/// A strategy document equivalent to a whole-disk install: find a disk of
/// at least 40 GiB, create a GPT table, and lay out an ESP plus a root
/// that takes the rest.
fn use_whole_disk_document() -> Document {
    let find_disk = node(
        "find-disk",
        vec![arg_str("main")],
        vec![constraints_child("min", vec![arg_int(40, Some("gib"))])],
    );
    let table = node(
        "create-partition-table",
        vec![prop("disk", "main"), prop("type", "gpt")],
        Vec::new(),
    );
    let esp = node(
        "create-partition",
        vec![prop("disk", "main"), prop("id", "esp"), prop("role", "boot")],
        vec![constraints_child("exactly", vec![arg_int(512, Some("mib"))])],
    );
    let root = node(
        "create-partition",
        vec![prop("disk", "main"), prop("id", "root"), prop("role", "root")],
        vec![node("constraints", Vec::new(), vec![node("remaining", Vec::new(), Vec::new())])],
    );
    let base = node(
        "strategy",
        vec![prop("name", "whole_disk"), prop("summary", "Wipe and use whole disk")],
        vec![find_disk, table, esp, root],
    );
    let child = node(
        "strategy",
        vec![
            prop("name", "whole_disk_with_swap"),
            prop("summary", "Whole disk plus swap"),
            prop("inherits", "whole_disk"),
        ],
        vec![node(
            "create-partition",
            vec![prop("disk", "main"), prop("id", "swap"), prop("role", "swap")],
            vec![constraints_child("exactly", vec![arg_int(2, Some("gib"))])],
        )],
    );
    Document { nodes: vec![base, child] }
}

#[test]
fn value_types() {
    assert_eq!(KdlType::for_value(&Value::Bool(true)).unwrap(), KdlType::Boolean);
    assert_eq!(
        KdlType::for_value(&Value::Str("x".to_owned())).unwrap(),
        KdlType::String
    );
    assert_eq!(KdlType::for_value(&Value::Null).unwrap(), KdlType::Null);
    assert_eq!(KdlType::for_value(&Value::Int(1)).unwrap(), KdlType::Integer);
    assert!(KdlType::for_value(&Value::Other).is_err());
}

#[test]
fn roles_and_table_types() {
    assert_eq!(PartitionRole::parse("boot").unwrap(), PartitionRole::Boot);
    assert_eq!(
        PartitionRole::parse("extended-boot").unwrap(),
        PartitionRole::ExtendedBoot
    );
    assert_eq!(PartitionRole::parse("swap").unwrap(), PartitionRole::Swap);
    assert!(PartitionRole::parse("kernel").is_err());
    assert_eq!(PartitionTableType::parse("gpt").unwrap(), PartitionTableType::Gpt);
    assert_eq!(PartitionTableType::parse("msdos").unwrap(), PartitionTableType::Msdos);
    assert!(PartitionTableType::parse("apm").is_err());
}

#[test]
fn storage_units() {
    assert_eq!(StorageUnit::parse("b").unwrap().factor(), 1);
    assert_eq!(StorageUnit::parse("kb").unwrap().factor(), 1000);
    assert_eq!(StorageUnit::parse("mb").unwrap().factor(), 1_000_000);
    assert_eq!(StorageUnit::parse("gb").unwrap().factor(), 1_000_000_000);
    assert_eq!(StorageUnit::parse("tb").unwrap().factor(), 1_000_000_000_000);
    assert_eq!(StorageUnit::parse("kib").unwrap().factor(), 1024);
    assert_eq!(StorageUnit::parse("mib").unwrap().factor(), 1024 * 1024);
    assert_eq!(StorageUnit::parse("gib").unwrap().factor(), GIB);
    assert_eq!(StorageUnit::parse("tib").unwrap().factor(), 1024 * GIB);
    assert!(StorageUnit::parse("pib").is_err());
}

#[test]
fn storage_sizes_from_entries() {
    assert_eq!(entry_storage_size(&arg_int(40, Some("gib"))).unwrap(), 40 * GIB);
    assert_eq!(entry_storage_size(&arg_int(512, Some("MiB"))).unwrap(), 512 * MIB);
    assert_eq!(entry_storage_size(&arg_int(7, None)).unwrap(), 7);
    assert_eq!(entry_storage_size(&arg_int(3, Some("kb"))).unwrap(), 3000);
    // a non-integer value is an invalid type
    assert!(entry_storage_size(&arg_str("x")).is_err());
    // a negative count and an overflowing product are unsupported
    assert!(entry_storage_size(&arg_int(-1, None)).is_err());
    assert!(entry_storage_size(&arg_int(i128::MAX, Some("tib"))).is_err());
}

#[test]
fn constraints_from_nodes() {
    let range = node(
        "constraints",
        Vec::new(),
        vec![
            node("min", vec![arg_int(4, Some("gib"))], Vec::new()),
            node("max", vec![arg_int(8, Some("gib"))], Vec::new()),
        ],
    );
    assert!(matches!(
        Constraints::from_kdl_node(&range).unwrap(),
        Constraints::Range { min, max } if min == 4 * GIB && max == 8 * GIB
    ));

    let at_least = constraints_child("min", vec![arg_int(40, Some("gib"))]);
    assert!(matches!(
        Constraints::from_kdl_node(&at_least).unwrap(),
        Constraints::AtLeast(n) if n == 40 * GIB
    ));

    let exact = constraints_child("exactly", vec![arg_int(512, Some("mib"))]);
    assert!(matches!(
        Constraints::from_kdl_node(&exact).unwrap(),
        Constraints::Exact(n) if n == 512 * MIB
    ));

    let remaining = node(
        "constraints",
        Vec::new(),
        vec![node("remaining", Vec::new(), Vec::new())],
    );
    assert!(matches!(
        Constraints::from_kdl_node(&remaining).unwrap(),
        Constraints::Remaining
    ));

    let empty = node("constraints", Vec::new(), Vec::new());
    assert!(matches!(
        Constraints::from_kdl_node(&empty),
        Err(Error::MissingProperty(_))
    ));
}

#[test]
fn parse_whole_document() {
    let doc = use_whole_disk_document();
    let parser = Parser::from_document("whole-disk".to_owned(), &doc).expect("document parses");
    assert_eq!(parser.strategies.len(), 2);

    let base = &parser.strategies[0];
    assert_eq!(base.name, "whole_disk");
    assert_eq!(base.summary, "Wipe and use whole disk");
    assert!(base.inherits.is_none());
    assert_eq!(base.commands.len(), 4);
    assert!(matches!(&base.commands[0], Command::FindDisk(c)
        if c.name == "main" && matches!(c.constraints, Some(Constraints::AtLeast(n)) if n == 40 * GIB)));
    assert!(matches!(&base.commands[1], Command::CreatePartitionTable(c)
        if c.disk == "main" && c.table_type == PartitionTableType::Gpt));
    assert!(matches!(&base.commands[2], Command::CreatePartition(c)
        if c.disk == "main" && c.id == "esp" && c.role == Some(PartitionRole::Boot)
            && matches!(c.constraints, Constraints::Exact(n) if n == 512 * MIB)));
    assert!(matches!(&base.commands[3], Command::CreatePartition(c)
        if c.id == "root" && matches!(c.constraints, Constraints::Remaining)));

    let child = &parser.strategies[1];
    assert_eq!(child.inherits.as_deref(), Some("whole_disk"));
    assert_eq!(child.commands.len(), 1);
}

#[test]
fn unknown_nodes_are_diagnosed() {
    // an unsupported command inside a strategy is a warning: the strategy
    // still parses, with the unknown command skipped
    let strategy = node(
        "strategy",
        vec![prop("name", "s"), prop("summary", "s")],
        vec![node("frobnicate", Vec::new(), Vec::new())],
    );
    let doc = Document { nodes: vec![strategy] };
    let parser = Parser::from_document("doc".to_owned(), &doc).expect("warnings are tolerated");
    assert_eq!(parser.strategies.len(), 1);
    assert_eq!(parser.strategies[0].commands.len(), 0);

    // an unsupported top-level node is diagnosed
    let doc = Document { nodes: vec![node("frobnicate", Vec::new(), Vec::new())] };
    let err = Parser::from_document("doc".to_owned(), &doc).err().expect("diagnosed");
    assert_eq!(err.diagnostics.len(), 1);
    assert_eq!(err.diagnostics[0].severity(), Severity::Warning);

    // a missing mandatory property is fatal
    let broken = node("strategy", vec![prop("summary", "s")], Vec::new());
    let doc = Document { nodes: vec![broken] };
    assert!(Parser::from_document("doc".to_owned(), &doc).is_err());
}

#[test]
fn command_error_variants() {
    // find-disk without a name
    let n = node("find-disk", Vec::new(), Vec::new());
    assert!(matches!(
        provisioning::commands::parse_command(&n),
        Err(Error::InvalidArguments(_))
    ));
    // find-disk with two names
    let n = node("find-disk", vec![arg_str("a"), arg_str("b")], Vec::new());
    assert!(matches!(
        provisioning::commands::parse_command(&n),
        Err(Error::InvalidArguments(_))
    ));
    // create-partition without its constraints child
    let n = node(
        "create-partition",
        vec![prop("disk", "main"), prop("id", "esp")],
        Vec::new(),
    );
    assert!(matches!(
        provisioning::commands::parse_command(&n),
        Err(Error::MissingNode(_))
    ));
    // a sizing child without a positional entry
    let n = constraints_child("min", Vec::new());
    assert!(matches!(
        Constraints::from_kdl_node(&n),
        Err(Error::MissingEntry(_))
    ));
    // a string where a size is expected
    let n = constraints_child("min", vec![arg_str("lots")]);
    assert!(matches!(
        Constraints::from_kdl_node(&n),
        Err(Error::InvalidType(_))
    ));
    // an unknown storage unit
    let n = constraints_child("min", vec![arg_int(4, Some("pib"))]);
    assert!(matches!(
        Constraints::from_kdl_node(&n),
        Err(Error::UnsupportedValue(_))
    ));
    // an unsupported partition-table type
    let n = node(
        "create-partition-table",
        vec![prop("disk", "main"), prop("type", "apm")],
        Vec::new(),
    );
    assert!(matches!(
        provisioning::commands::parse_command(&n),
        Err(Error::UnsupportedValue(_))
    ));
    // an unsupported partition role
    let n = node(
        "create-partition",
        vec![prop("disk", "main"), prop("id", "esp"), prop("role", "kernel")],
        vec![node("constraints", Vec::new(), vec![node("remaining", Vec::new(), Vec::new())])],
    );
    assert!(matches!(
        provisioning::commands::parse_command(&n),
        Err(Error::UnsupportedValue(_))
    ));
}

#[test]
fn test_use_whole_disk() {
    let doc = use_whole_disk_document();
    let parser = Parser::from_document("whole-disk".to_owned(), &doc).expect("document parses");
    let device = BlockDevice::mock_device(MockDisk::new(150 * GIB));
    let mut provisioner = Provisioner::new();
    provisioner.push_device(device);
    for def in parser.strategies {
        provisioner.add_strategy(def);
    }

    let plans = provisioner.plan();
    assert_eq!(plans.len(), 2);

    for plan in &plans {
        assert_eq!(plan.device_assignments.len(), 1);
        let (name, dp) = &plan.device_assignments[0];
        assert_eq!(name, "main");
        assert_eq!(dp.device_index, 0);
        // the strategy was applied: the layout was built on the planner
        let layout = dp.planner.current_layout();
        assert!(layout.len() >= 2);
        assert_eq!(layout[0].size(), 512 * MIB);
        assert!(dp.planner.has_changes());
    }
}

#[test]
fn same_named_strategy_is_replaced() {
    // two definitions under one name: the later one replaces the earlier
    let make = |summary: &str, extra_partition: bool| {
        let mut children = vec![
            node(
                "find-disk",
                vec![arg_str("main")],
                vec![constraints_child("min", vec![arg_int(1, Some("gib"))])],
            ),
            node(
                "create-partition-table",
                vec![prop("disk", "main"), prop("type", "gpt")],
                Vec::new(),
            ),
            node(
                "create-partition",
                vec![prop("disk", "main"), prop("id", "root")],
                vec![node(
                    "constraints",
                    Vec::new(),
                    vec![node("remaining", Vec::new(), Vec::new())],
                )],
            ),
        ];
        if extra_partition {
            children.insert(
                2,
                node(
                    "create-partition",
                    vec![prop("disk", "main"), prop("id", "esp")],
                    vec![constraints_child("exactly", vec![arg_int(512, Some("mib"))])],
                ),
            );
        }
        node(
            "strategy",
            vec![prop("name", "only"), prop("summary", summary)],
            children,
        )
    };
    let doc = Document { nodes: vec![make("first", false)] };
    let first = Parser::from_document("doc".to_owned(), &doc).unwrap();
    let doc = Document { nodes: vec![make("second", true)] };
    let second = Parser::from_document("doc".to_owned(), &doc).unwrap();

    let mut provisioner = Provisioner::new();
    provisioner.push_device(BlockDevice::mock_device(MockDisk::new(100 * GIB)));
    for def in first.strategies {
        provisioner.add_strategy(def);
    }
    for def in second.strategies {
        provisioner.add_strategy(def);
    }

    // only the replacement is evaluated: one plan, with its two partitions
    let plans = provisioner.plan();
    assert_eq!(plans.len(), 1);
    let (_, dp) = &plans[0].device_assignments[0];
    assert_eq!(dp.planner.current_layout().len(), 2);
}

#[test]
fn too_small_pool_gives_no_assignment() {
    let doc = use_whole_disk_document();
    let parser = Parser::from_document("whole-disk".to_owned(), &doc).unwrap();
    // a 10 GiB disk fails the 40 GiB minimum: plans carry no assignments
    let device = BlockDevice::mock_device(MockDisk::new(10 * GIB));
    let mut provisioner = Provisioner::new();
    provisioner.push_device(device);
    for def in parser.strategies {
        provisioner.add_strategy(def);
    }
    let plans = provisioner.plan();
    // a branch with no admissible device produces no plan at all
    assert_eq!(plans.len(), 0);
}
