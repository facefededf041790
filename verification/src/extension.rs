//! Extension registry: what the server has said of each extension that
//! was resolved, kept for the connection's lifetime.

use vstd::prelude::*;

verus! {

/// The codes that the server has given to an extension.
#[derive(Debug, Clone, Copy, PartialEq, Eq, Structural)]
pub struct ExtensionInformation {
    pub major_opcode: u8,
    pub first_event: u8,
    pub first_error: u8,
}

/// One resolved extension.
pub struct ExtensionEntry {
    name: String,
    info: ExtensionInformation,
}

/// The extensions resolved so far, by name.
pub struct ExtensionRegistry {
    entries: Vec<ExtensionEntry>,
}

/// The map that a run of entries stands for: a later entry of a name
/// replaces an earlier one.
pub closed spec fn entries_map(entries: Seq<ExtensionEntry>) -> Map<
    Seq<char>,
    ExtensionInformation,
>
    decreases entries.len(),
{
    if entries.len() == 0 {
        Map::empty()
    } else {
        entries_map(entries.drop_last()).insert(entries.last().name@, entries.last().info)
    }
}

impl View for ExtensionRegistry {
    type V = Map<Seq<char>, ExtensionInformation>;

    closed spec fn view(&self) -> Map<Seq<char>, ExtensionInformation> {
        entries_map(self.entries@)
    }
}

impl ExtensionRegistry {
    /// A registry that knows no extension.
    pub fn new() -> (r: Self)
        ensures
            r@ == Map::<Seq<char>, ExtensionInformation>::empty(),
    {
        ExtensionRegistry { entries: Vec::new() }
    }

    /// What is known of the extension `name`, if it was resolved.
    pub fn lookup(&self, name: &str) -> (r: Option<ExtensionInformation>)
        ensures
            r == if self@.contains_key(name@) {
                Some(self@[name@])
            } else {
                None
            },
    {
        let wanted: String = name.to_owned();
        let mut i: usize = self.entries.len();
        assert(self.entries@.take(i as int) =~= self.entries@);
        while i > 0
            invariant
                i <= self.entries@.len(),
                wanted@ == name@,
                self@.contains_key(name@) <==> entries_map(self.entries@.take(i as int)).contains_key(
                    name@,
                ),
                self@.contains_key(name@) ==> self@[name@] == entries_map(
                    self.entries@.take(i as int),
                )[name@],
            decreases i,
        {
            assert(self.entries@.take(i as int).drop_last() =~= self.entries@.take(i - 1));
            i -= 1;
            if self.entries[i].name == wanted {
                return Some(self.entries[i].info);
            }
        }
        None
    }

    /// Records what the server said of the extension `name`.
    pub fn insert(&mut self, name: &str, info: ExtensionInformation)
        ensures
            final(self)@ == old(self)@.insert(name@, info),
    {
        let entry = ExtensionEntry { name: name.to_owned(), info };
        self.entries.push(entry);
        assert(self.entries@.drop_last() =~= old(self).entries@);
    }
}

} // verus!
