//! The strategy document's node model: a tree of named nodes carrying
//! typed scalar entries and child nodes, with source spans for
//! diagnostics. The concrete syntax is parsed outside this crate; the
//! logic here works on this model alone.

use vstd::prelude::*;
use vstd::string::StrSliceExecFns;

verus! {

/// A byte range in the source text, for diagnostics.
#[derive(Debug, Clone, Copy, PartialEq, Eq, Structural)]
pub struct SourceSpan {
    /// Byte offset of the start of the range.
    pub offset: usize,
    /// Length of the range in bytes.
    pub len: usize,
}

/// A scalar value of a document entry. `Other` stands for every value
/// kind the strategy language does not use (such as floating point).
#[derive(Debug)]
pub enum Value {
    /// A string value.
    Str(String),
    /// An integer value.
    Int(i128),
    /// A boolean value.
    Bool(bool),
    /// A null value.
    Null,
    /// A value of an unsupported kind.
    Other,
}

/// One entry of a node: an optional property name, an optional type
/// annotation, and a scalar value.
#[derive(Debug)]
pub struct Entry {
    /// Property name; `None` for a positional argument.
    pub name: Option<String>,
    /// Type annotation (e.g. a storage unit).
    pub ty: Option<String>,
    /// The entry's value.
    pub value: Value,
    /// Where the entry stands in the source.
    pub span: SourceSpan,
}

/// A document node: a name, entries, and child nodes.
#[derive(Debug)]
pub struct Node {
    /// The node's name.
    pub name: String,
    /// Where the node stands in the source.
    pub span: SourceSpan,
    /// The node's entries, in document order.
    pub entries: Vec<Entry>,
    /// The node's children, in document order.
    pub children: Vec<Node>,
}

/// A whole strategy document: its top-level nodes.
#[derive(Debug)]
pub struct Document {
    /// The top-level nodes, in document order.
    pub nodes: Vec<Node>,
}

/// Are two strings the same sequence of characters?
pub fn str_eq(a: &str, b: &str) -> (r: bool)
    ensures
        r == (a@ == b@),
{
    let n = a.unicode_len();
    let m = b.unicode_len();
    if n != m {
        proof {
            assert(a@ != b@);
        }
        return false;
    }
    let mut i: usize = 0;
    while i < n
        invariant
            0 <= i <= n,
            n == a@.len(),
            n == b@.len(),
            forall|k: int| 0 <= k < i ==> a@[k] == b@[k],
        decreases n - i,
    {
        if a.get_char(i) != b.get_char(i) {
            return false;
        }
        i += 1;
    }
    proof {
        assert(a@ =~= b@);
    }
    true
}

/// Does character `a` match lowercase letter `b` ignoring ASCII case?
pub open spec fn char_matches_ci(a: char, b: char) -> bool {
    a == b || (0x41 <= a as u32 <= 0x5A && a as u32 + 0x20 == b as u32)
}

/// Does `a` match `b` (a lowercase pattern) ignoring ASCII case?
pub open spec fn spec_eq_ci(a: Seq<char>, b: Seq<char>) -> bool {
    a.len() == b.len() && forall|i: int| 0 <= i < a.len() ==> char_matches_ci(a[i], #[trigger] b[i])
}

/// Compare a string against a lowercase pattern, ignoring ASCII case.
pub fn str_eq_ci(a: &str, b: &str) -> (r: bool)
    ensures
        r == spec_eq_ci(a@, b@),
{
    let n = a.unicode_len();
    let m = b.unicode_len();
    if n != m {
        return false;
    }
    let mut i: usize = 0;
    while i < n
        invariant
            0 <= i <= n,
            n == a@.len(),
            n == b@.len(),
            forall|k: int| 0 <= k < i ==> char_matches_ci(a@[k], #[trigger] b@[k]),
        decreases n - i,
    {
        let ca = a.get_char(i);
        let cb = b.get_char(i);
        if !(ca == cb || (0x41 <= ca as u32 && ca as u32 <= 0x5A && ca as u32 + 0x20
            == cb as u32)) {
            return false;
        }
        i += 1;
    }
    true
}

impl Node {
    /// The first child with the given name, if any.
    pub open spec fn spec_child(self, name: Seq<char>) -> Option<Node> {
        spec_find_child(self.children@, name)
    }

    /// The first entry carrying the given property name, if any.
    pub open spec fn spec_property(self, name: Seq<char>) -> Option<Entry> {
        spec_find_property(self.entries@, name)
    }

    /// Find the first child node with the given name.
    pub fn child(&self, name: &str) -> (r: Option<&Node>)
        ensures
            r is Some <==> self.spec_child(name@) is Some,
            r matches Some(n) ==> *n == self.spec_child(name@)->Some_0,
    {
        let count = self.children.len();
        let mut i: usize = 0;
        proof {
            assert(self.children@.skip(0) =~= self.children@);
        }
        while i < count
            invariant
                0 <= i <= count,
                count == self.children@.len(),
                forall|k: int| 0 <= k < i ==> (#[trigger] self.children@[k]).name@ != name@,
                spec_find_child(self.children@, name@) == spec_find_child(
                    self.children@.skip(i as int),
                    name@,
                ),
            decreases count - i,
        {
            proof {
                assert(self.children@.skip(i as int)[0] == self.children@[i as int]);
                assert(self.children@.skip(i as int).drop_first() =~= self.children@.skip(i + 1));
            }
            if str_eq(self.children[i].name.as_str(), name) {
                return Some(&self.children[i]);
            }
            i += 1;
        }
        proof {
            assert(self.children@.skip(count as int) =~= Seq::<Node>::empty());
        }
        None
    }

    /// Find the first entry carrying the given property name.
    pub fn property(&self, name: &str) -> (r: Option<&Entry>)
        ensures
            r is Some <==> self.spec_property(name@) is Some,
            r matches Some(e) ==> *e == self.spec_property(name@)->Some_0,
    {
        let count = self.entries.len();
        let mut i: usize = 0;
        proof {
            assert(self.entries@.skip(0) =~= self.entries@);
        }
        while i < count
            invariant
                0 <= i <= count,
                count == self.entries@.len(),
                spec_find_property(self.entries@, name@) == spec_find_property(
                    self.entries@.skip(i as int),
                    name@,
                ),
            decreases count - i,
        {
            proof {
                assert(self.entries@.skip(i as int)[0] == self.entries@[i as int]);
                assert(self.entries@.skip(i as int).drop_first() =~= self.entries@.skip(i + 1));
            }
            match &self.entries[i].name {
                Some(n) => {
                    if str_eq(n.as_str(), name) {
                        return Some(&self.entries[i]);
                    }
                },
                None => {},
            }
            i += 1;
        }
        proof {
            assert(self.entries@.skip(count as int) =~= Seq::<Entry>::empty());
        }
        None
    }

    /// The positional (unnamed) entry at the given argument index.
    pub fn argument(&self, index: usize) -> (r: Option<&Entry>)
        ensures
            r is Some <==> index < spec_arguments(self.entries@).len(),
            r matches Some(e) ==> *e == spec_arguments(self.entries@)[index as int],
    {
        let count = self.entries.len();
        let mut i: usize = 0;
        let mut seen: usize = 0;
        proof {
            assert(self.entries@.take(0) =~= Seq::<Entry>::empty());
            assert(spec_arguments(Seq::<Entry>::empty()) =~= Seq::<Entry>::empty());
        }
        while i < count
            invariant
                0 <= i <= count,
                count == self.entries@.len(),
                seen == spec_arguments(self.entries@.take(i as int)).len(),
                seen <= index,
                forall|k: int|
                    0 <= k < seen ==> spec_arguments(self.entries@.take(i as int))[k]
                        == spec_arguments(self.entries@)[k],
                spec_arguments(self.entries@.take(i as int)) == spec_arguments(
                    self.entries@,
                ).take(seen as int),
            decreases count - i,
        {
            proof {
                lemma_arguments_take_step(self.entries@, i as int);
            }
            let is_arg = match &self.entries[i].name {
                Some(_) => false,
                None => true,
            };
            if is_arg {
                proof {
                    lemma_arguments_prefix(self.entries@, i + 1);
                }
                if seen == index {
                    return Some(&self.entries[i]);
                }
                seen += 1;
            }
            i += 1;
        }
        proof {
            assert(self.entries@.take(count as int) =~= self.entries@);
        }
        None
    }

    /// How many positional arguments the node has.
    pub fn argument_count(&self) -> (r: usize)
        ensures
            r == spec_arguments(self.entries@).len(),
    {
        let count = self.entries.len();
        let mut i: usize = 0;
        let mut seen: usize = 0;
        proof {
            assert(self.entries@.take(0) =~= Seq::<Entry>::empty());
            assert(spec_arguments(Seq::<Entry>::empty()) =~= Seq::<Entry>::empty());
        }
        while i < count
            invariant
                0 <= i <= count,
                count == self.entries@.len(),
                seen == spec_arguments(self.entries@.take(i as int)).len(),
            decreases count - i,
        {
            proof {
                lemma_arguments_take_step(self.entries@, i as int);
                crate::document::lemma_arguments_len(self.entries@.take(i + 1));
            }
            match &self.entries[i].name {
                Some(_) => {},
                None => {
                    seen += 1;
                },
            }
            i += 1;
        }
        proof {
            assert(self.entries@.take(count as int) =~= self.entries@);
        }
        seen
    }
}

/// The first node of the sequence with the given name.
pub open spec fn spec_find_child(nodes: Seq<Node>, name: Seq<char>) -> Option<Node>
    decreases nodes.len(),
{
    if nodes.len() == 0 {
        None
    } else if nodes[0].name@ == name {
        Some(nodes[0])
    } else {
        spec_find_child(nodes.drop_first(), name)
    }
}

/// The first entry of the sequence carrying the given property name.
pub open spec fn spec_find_property(entries: Seq<Entry>, name: Seq<char>) -> Option<Entry>
    decreases entries.len(),
{
    if entries.len() == 0 {
        None
    } else if entries[0].name matches Some(n) && n@ == name {
        Some(entries[0])
    } else {
        spec_find_property(entries.drop_first(), name)
    }
}

/// The positional (unnamed) entries, in order.
pub open spec fn spec_arguments(entries: Seq<Entry>) -> Seq<Entry>
    decreases entries.len(),
{
    if entries.len() == 0 {
        Seq::empty()
    } else {
        let rest = spec_arguments(entries.drop_first());
        if entries[0].name is None {
            seq![entries[0]] + rest
        } else {
            rest
        }
    }
}

pub proof fn lemma_arguments_len(entries: Seq<Entry>)
    ensures
        spec_arguments(entries).len() <= entries.len(),
    decreases entries.len(),
{
    if entries.len() > 0 {
        lemma_arguments_len(entries.drop_first());
    }
}

/// Appending one more entry extends the arguments with that entry when it
/// is positional and leaves them alone when it is named.
proof fn lemma_arguments_push(entries: Seq<Entry>, e: Entry)
    ensures
        spec_arguments(entries.push(e)) == if e.name is None {
            spec_arguments(entries).push(e)
        } else {
            spec_arguments(entries)
        },
    decreases entries.len(),
{
    let p = entries.push(e);
    assert(spec_arguments(Seq::<Entry>::empty()) =~= Seq::<Entry>::empty());
    if entries.len() == 0 {
        assert(p[0] == e);
        assert(p.drop_first() =~= Seq::<Entry>::empty());
        assert(spec_arguments(p.drop_first()) == spec_arguments(Seq::<Entry>::empty()));
        if e.name is None {
            assert(spec_arguments(p) =~= spec_arguments(entries).push(e));
        } else {
            assert(spec_arguments(p) =~= spec_arguments(entries));
        }
    } else {
        assert(p[0] == entries[0]);
        assert(p.drop_first() =~= entries.drop_first().push(e));
        lemma_arguments_push(entries.drop_first(), e);
        if e.name is None {
            assert(spec_arguments(p) =~= spec_arguments(entries).push(e));
        } else {
            assert(spec_arguments(p) =~= spec_arguments(entries));
        }
    }
}

/// One scan step: the arguments of one more taken entry.
proof fn lemma_arguments_take_step(entries: Seq<Entry>, i: int)
    requires
        0 <= i < entries.len(),
    ensures
        spec_arguments(entries.take(i + 1)) == if entries[i].name is None {
            spec_arguments(entries.take(i)).push(entries[i])
        } else {
            spec_arguments(entries.take(i))
        },
{
    assert(entries.take(i + 1) =~= entries.take(i).push(entries[i]));
    lemma_arguments_push(entries.take(i), entries[i]);
}

/// The arguments of a prefix are a prefix of the arguments.
proof fn lemma_arguments_prefix(entries: Seq<Entry>, i: int)
    requires
        0 <= i <= entries.len(),
    ensures
        spec_arguments(entries.take(i)).len() <= spec_arguments(entries).len(),
        forall|k: int|
            0 <= k < spec_arguments(entries.take(i)).len() ==> spec_arguments(entries.take(i))[k]
                == spec_arguments(entries)[k],
        spec_arguments(entries.take(i)) == spec_arguments(entries).take(
            spec_arguments(entries.take(i)).len() as int,
        ),
    decreases entries.len() - i,
{
    if i == entries.len() {
        assert(entries.take(i) =~= entries);
        assert(spec_arguments(entries.take(i)) =~= spec_arguments(entries).take(
            spec_arguments(entries.take(i)).len() as int,
        ));
    } else {
        lemma_arguments_take_step(entries, i);
        lemma_arguments_prefix(entries, i + 1);
        assert(spec_arguments(entries.take(i)) =~= spec_arguments(entries).take(
            spec_arguments(entries.take(i)).len() as int,
        ));
    }
}

} // verus!
