//! A table from symbol names to addresses.
use crate::text::str_eq;
use vstd::prelude::*;

verus! {

/// Symbol names with their addresses; a later entry for a name replaces an
/// earlier one. The entries are kept in a list and looked up from the newest
/// back, rather than in a `HashMap<String, u32>`: vstd specifies std's maps
/// only for keys whose hashing and equality it knows, which a `String` key is
/// not, so with a map no lookup could be proved to find what was inserted.
/// The tables are small (the hack's own functions), so the linear lookup
/// costs nothing that matters.
pub struct SymbolTable {
    entries: Vec<(String, u32)>,
}

/// The map that a list of entries stands for, later entries winning.
pub open spec fn entries_map(s: Seq<(String, u32)>) -> Map<Seq<char>, u32>
    decreases s.len(),
{
    if s.len() == 0 {
        Map::empty()
    } else {
        entries_map(s.drop_last()).insert(s.last().0@, s.last().1)
    }
}

impl View for SymbolTable {
    type V = Map<Seq<char>, u32>;

    closed spec fn view(&self) -> Map<Seq<char>, u32> {
        entries_map(self.entries@)
    }
}

impl SymbolTable {
    /// An empty table.
    pub fn new() -> (t: SymbolTable)
        ensures
            t@ == Map::<Seq<char>, u32>::empty(),
    {
        SymbolTable { entries: Vec::new() }
    }

    /// Sets the address of `name`.
    pub fn insert(&mut self, name: String, address: u32)
        ensures
            final(self)@ == old(self)@.insert(name@, address),
    {
        let ghost before = self.entries@;
        self.entries.push((name, address));
        assert(self.entries@.drop_last() =~= before);
    }

    /// The address of `name`, if the table has one.
    pub fn get(&self, name: &str) -> (r: Option<u32>)
        ensures
            r == (if self@.contains_key(name@) {
                Some(self@[name@])
            } else {
                None
            }),
    {
        let mut i = self.entries.len();
        assert(self.entries@.subrange(0, i as int) =~= self.entries@);
        assert(self.entries@.subrange(i as int, i as int) =~= Seq::<(String, u32)>::empty());
        assert(entries_map(self.entries@) =~= entries_map(self.entries@).union_prefer_right(
            Map::<Seq<char>, u32>::empty(),
        ));
        while i > 0
            invariant
                i <= self.entries@.len(),
                entries_map(self.entries@) == entries_map(self.entries@.subrange(0, i as int)).union_prefer_right(
                    entries_map(self.entries@.subrange(i as int, self.entries@.len() as int)),
                ),
                !entries_map(self.entries@.subrange(i as int, self.entries@.len() as int)).contains_key(name@),
            decreases i,
        {
            let ghost pre = self.entries@.subrange(0, i as int);
            let ghost post = self.entries@.subrange(i as int, self.entries@.len() as int);
            let ghost npost = self.entries@.subrange(i - 1, self.entries@.len() as int);
            proof {
                assert(pre.drop_last() =~= self.entries@.subrange(0, i - 1));
                lemma_entries_prepend(npost);
                assert(npost.drop_first() =~= post);
            }
            if str_eq(self.entries[i - 1].0.as_str(), name) {
                assert(entries_map(pre).contains_key(name@));
                assert(entries_map(self.entries@).contains_key(name@));
                return Some(self.entries[i - 1].1);
            }
            i = i - 1;
            proof {
                assert(entries_map(self.entries@) =~= entries_map(self.entries@.subrange(0, i as int)).union_prefer_right(
                    entries_map(self.entries@.subrange(i as int, self.entries@.len() as int)),
                ));
            }
        }
        assert(self.entries@.subrange(0, 0) =~= Seq::<(String, u32)>::empty());
        None
    }
}

/// Adding an entry in front changes the map only where no later entry has the name.
proof fn lemma_entries_prepend(s: Seq<(String, u32)>)
    requires
        s.len() > 0,
    ensures
        entries_map(s) == Map::<Seq<char>, u32>::empty().insert(s[0].0@, s[0].1).union_prefer_right(
            entries_map(s.drop_first()),
        ),
    decreases s.len(),
{
    if s.len() == 1 {
        assert(s.drop_first() =~= Seq::<(String, u32)>::empty());
        assert(s.drop_last() =~= Seq::<(String, u32)>::empty());
        assert(entries_map(s) =~= Map::<Seq<char>, u32>::empty().insert(s[0].0@, s[0].1).union_prefer_right(
            entries_map(s.drop_first()),
        ));
    } else {
        lemma_entries_prepend(s.drop_last());
        assert(s.drop_last().drop_first() =~= s.drop_first().drop_last());
        assert(entries_map(s) =~= Map::<Seq<char>, u32>::empty().insert(s[0].0@, s[0].1).union_prefer_right(
            entries_map(s.drop_first()),
        ));
    }
}

} // verus!
