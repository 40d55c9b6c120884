//! The environment snapshot: a point-in-time mapping from variable name to
//! value, handed over exactly as read, with no filtering and no redaction.
//! Exposing the whole environment is deliberate; the caller decides who sees
//! the snapshot.

use vstd::prelude::*;

verus! {

/// The mapping the entries denote: a later entry for a name wins.
pub open spec fn env_map_of(entries: Seq<(String, String)>) -> Map<Seq<char>, Seq<char>>
    decreases entries.len(),
{
    if entries.len() == 0 {
        Map::empty()
    } else {
        env_map_of(entries.drop_last()).insert(entries.last().0@, entries.last().1@)
    }
}

/// A snapshot of the process environment, as name-value entries.
pub struct EnvSnapshot {
    pub entries: Vec<(String, String)>,
}

impl View for EnvSnapshot {
    type V = Map<Seq<char>, Seq<char>>;

    open spec fn view(&self) -> Map<Seq<char>, Seq<char>> {
        env_map_of(self.entries@)
    }
}

/// Builds the snapshot from the entries as read, keeping every entry.
pub fn initial_environment_variables(vars: Vec<(String, String)>) -> (r: EnvSnapshot)
    ensures
        r.entries@ == vars@,
        r@ == env_map_of(vars@),
{
    EnvSnapshot { entries: vars }
}

impl EnvSnapshot {
    /// The number of entries the snapshot holds.
    pub fn entry_count(&self) -> (n: usize)
        ensures
            n == self.entries@.len(),
    {
        self.entries.len()
    }

    /// The value of the named variable, when the snapshot holds one.
    pub fn get(&self, name: &String) -> (r: Option<&String>)
        ensures
            match r {
                Some(v) => self@.contains_key(name@) && v@ == self@[name@],
                None => !self@.contains_key(name@),
            },
    {
        let mut i: usize = self.entries.len();
        assert(self.entries@.take(i as int) =~= self.entries@);
        while i > 0
            invariant
                i <= self.entries@.len(),
                env_map_of(self.entries@).contains_key(name@) == env_map_of(
                    self.entries@.take(i as int),
                ).contains_key(name@),
                env_map_of(self.entries@).contains_key(name@) ==> env_map_of(
                    self.entries@.take(i as int),
                )[name@] == env_map_of(self.entries@)[name@],
            decreases i,
        {
            i = i - 1;
            proof {
                assert(self.entries@.take(i + 1).drop_last() =~= self.entries@.take(i as int));
                assert(self.entries@.take(i + 1).last() == self.entries@[i as int]);
            }
            if crate::path::string_eq(&self.entries[i].0, name) {
                assert(env_map_of(self.entries@.take(i + 1)).contains_key(name@));
                assert(env_map_of(self.entries@.take(i + 1))[name@]
                    == self.entries@[i as int].1@);
                return Some(&self.entries[i].1);
            }
            assert(env_map_of(self.entries@.take(i + 1)).contains_key(name@) == env_map_of(
                self.entries@.take(i as int),
            ).contains_key(name@));
        }
        proof {
            assert(self.entries@.take(0) =~= Seq::<(String, String)>::empty());
            assert(!env_map_of(self.entries@.take(0)).contains_key(name@));
        }
        None
    }
}

/// With pairwise-distinct names, the snapshot's mapping holds exactly the
/// entries: one key per entry, each bound to that entry's value.
pub proof fn lemma_env_map_exact(entries: Seq<(String, String)>)
    requires
        forall|a: int, b: int|
            0 <= a < b < entries.len() ==> (#[trigger] entries[a]).0@ != (
            #[trigger] entries[b]).0@,
    ensures
        env_map_of(entries).dom().finite(),
        env_map_of(entries).dom().len() == entries.len(),
        forall|j: int|
            0 <= j < entries.len() ==> env_map_of(entries).contains_key(
                (#[trigger] entries[j]).0@,
            ) && env_map_of(entries)[entries[j].0@] == entries[j].1@,
        forall|x: Seq<char>|
            env_map_of(entries).contains_key(x) ==> exists|j: int|
                0 <= j < entries.len() && (#[trigger] entries[j]).0@ == x,
    decreases entries.len(),
{
    if entries.len() > 0 {
        let prefix = entries.drop_last();
        lemma_env_map_exact(prefix);
        let last = entries.last();
        assert(!env_map_of(prefix).contains_key(last.0@)) by {
            if env_map_of(prefix).contains_key(last.0@) {
                let j = choose|j: int| 0 <= j < prefix.len() && (#[trigger] prefix[j]).0@
                    == last.0@;
                assert(entries[j].0@ == entries[entries.len() - 1].0@);
            }
        }
        assert(env_map_of(entries).dom() =~= env_map_of(prefix).dom().insert(last.0@));
        assert forall|j: int| 0 <= j < entries.len() implies env_map_of(entries).contains_key(
            (#[trigger] entries[j]).0@,
        ) && env_map_of(entries)[entries[j].0@] == entries[j].1@ by {
            if j < entries.len() - 1 {
                assert(prefix[j] == entries[j]);
                assert(entries[j].0@ != last.0@);
            }
        }
    }
}

} // verus!
