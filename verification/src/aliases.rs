//! Event name aliases.

use vstd::prelude::*;

use crate::text::same_text;

verus! {

/// The target of `name` among `aliases`, if it is an alias.
pub open spec fn alias_target(
    aliases: Seq<(Seq<char>, Seq<char>)>,
    name: Seq<char>,
) -> Option<Seq<char>>
    decreases aliases.len(),
{
    if aliases.len() == 0 {
        None
    } else if aliases[0].0 == name {
        Some(aliases[0].1)
    } else {
        alias_target(aliases.drop_first(), name)
    }
}

/// `aliases` with `alias` standing for `target`: in its old place where it was
/// there before, at the end otherwise.
pub open spec fn with_alias(
    aliases: Seq<(Seq<char>, Seq<char>)>,
    alias: Seq<char>,
    target: Seq<char>,
) -> Seq<(Seq<char>, Seq<char>)> {
    if alias_target(aliases, alias) is Some {
        Seq::new(
            aliases.len(),
            |i: int|
                if aliases[i].0 == alias {
                    (alias, target)
                } else {
                    aliases[i]
                },
        )
    } else {
        aliases.push((alias, target))
    }
}

/// Whether no alias occurs twice.
pub open spec fn distinct_aliases(aliases: Seq<(Seq<char>, Seq<char>)>) -> bool {
    forall|i: int, j: int|
        0 <= i < j < aliases.len() ==> (#[trigger] aliases[i]).0 != (#[trigger] aliases[j]).0
}

/// The name that `name` stands for: its target where it is an alias, itself otherwise.
pub open spec fn resolved(aliases: Seq<(Seq<char>, Seq<char>)>, name: Seq<char>) -> Seq<char> {
    match alias_target(aliases, name) {
        Some(target) => target,
        None => name,
    }
}

/// A target is found exactly where one of the aliases has that name, and it is
/// that of the first such alias.
pub proof fn lemma_alias_target(aliases: Seq<(Seq<char>, Seq<char>)>, name: Seq<char>, at: int)
    requires
        0 <= at <= aliases.len(),
        forall|k: int| 0 <= k < at ==> (#[trigger] aliases[k]).0 != name,
    ensures
        at < aliases.len() && aliases[at].0 == name ==> alias_target(aliases, name) == Some(
            aliases[at].1,
        ),
        at == aliases.len() ==> alias_target(aliases, name) is None,
    decreases aliases.len(),
{
    if at > 0 {
        let rest = aliases.drop_first();
        assert forall|k: int| 0 <= k < at - 1 implies (#[trigger] rest[k]).0 != name by {
            assert(rest[k] == aliases[k + 1]);
        }
        lemma_alias_target(rest, name, at - 1);
    }
}

/// Where a target is found, some alias has that name.
proof fn lemma_alias_found(aliases: Seq<(Seq<char>, Seq<char>)>, name: Seq<char>) -> (at: int)
    requires
        alias_target(aliases, name) is Some,
    ensures
        0 <= at < aliases.len(),
        aliases[at].0 == name,
        alias_target(aliases, name) == Some(aliases[at].1),
        forall|k: int| 0 <= k < at ==> (#[trigger] aliases[k]).0 != name,
    decreases aliases.len(),
{
    if aliases[0].0 == name {
        0
    } else {
        let rest = aliases.drop_first();
        let at = lemma_alias_found(rest, name) + 1;
        assert forall|k: int| 0 <= k < at implies (#[trigger] aliases[k]).0 != name by {
            if k > 0 {
                assert(rest[k - 1] == aliases[k]);
            }
        }
        at
    }
}

/// Law: giving `alias` a target changes what it stands for to that target, and
/// what no other name stands for.
pub proof fn law_alias_insert_then_lookup(
    aliases: Seq<(Seq<char>, Seq<char>)>,
    alias: Seq<char>,
    target: Seq<char>,
    name: Seq<char>,
)
    ensures
        alias_target(with_alias(aliases, alias, target), name) == if name == alias {
            Some(target)
        } else {
            alias_target(aliases, name)
        },
{
    let after = with_alias(aliases, alias, target);
    if alias_target(aliases, name) is Some {
        let at = lemma_alias_found(aliases, name);
        assert forall|k: int| 0 <= k < at implies (#[trigger] after[k]).0 != name by {
            assert(after[k].0 == aliases[k].0);
        }
        lemma_alias_target(after, name, at);
    } else {
        assert forall|k: int| 0 <= k < aliases.len() implies (#[trigger] after[k]).0 != name by {
            assert(after[k].0 == aliases[k].0);
            if aliases[k].0 == name {
                lemma_some_alias(aliases, name, k);
            }
        }
        if name == alias {
            lemma_alias_target(after, name, aliases.len() as int);
        } else {
            lemma_alias_target(after, name, after.len() as int);
        }
    }
}

/// An alias of that name gives a target.
proof fn lemma_some_alias(aliases: Seq<(Seq<char>, Seq<char>)>, name: Seq<char>, at: int)
    requires
        0 <= at < aliases.len(),
        aliases[at].0 == name,
    ensures
        alias_target(aliases, name) is Some,
    decreases aliases.len(),
{
    if aliases[0].0 != name {
        assert(aliases.drop_first()[at - 1] == aliases[at]);
        lemma_some_alias(aliases.drop_first(), name, at - 1);
    }
}

/// Law: giving an alias a target leaves no alias twice.
pub proof fn law_alias_insert_keeps_distinct(
    aliases: Seq<(Seq<char>, Seq<char>)>,
    alias: Seq<char>,
    target: Seq<char>,
)
    requires
        distinct_aliases(aliases),
    ensures
        distinct_aliases(with_alias(aliases, alias, target)),
{
    let after = with_alias(aliases, alias, target);
    assert forall|i: int, j: int| 0 <= i < j < after.len() implies (#[trigger] after[i]).0 != (
    #[trigger] after[j]).0 by {
        if j < aliases.len() {
            assert(after[i].0 == aliases[i].0);
            assert(after[j].0 == aliases[j].0);
        } else if aliases[i].0 == alias {
            lemma_some_alias(aliases, alias, i);
        }
    }
}

/// A table of aliases, each with the event name that it stands for.
///
/// No alias is in it twice.
#[derive(Debug)]
pub struct AliasTable {
    entries: Vec<(String, String)>,
}

/// The texts of alias table entries.
pub open spec fn pair_texts(entries: Seq<(String, String)>) -> Seq<(Seq<char>, Seq<char>)> {
    Seq::new(entries.len(), |i: int| (entries[i].0@, entries[i].1@))
}

impl View for AliasTable {
    type V = Seq<(Seq<char>, Seq<char>)>;

    closed spec fn view(&self) -> Seq<(Seq<char>, Seq<char>)> {
        pair_texts(self.entries@)
    }
}

impl AliasTable {
    #[verifier::type_invariant]
    spec fn well_formed(self) -> bool {
        distinct_aliases(pair_texts(self.entries@))
    }

    /// An empty table.
    pub fn new() -> (table: AliasTable)
        ensures
            table@ == Seq::<(Seq<char>, Seq<char>)>::empty(),
    {
        AliasTable { entries: Vec::new() }
    }

    /// The number of aliases.
    pub fn len(&self) -> (length: usize)
        ensures
            length == self@.len(),
            distinct_aliases(self@),
    {
        proof {
            use_type_invariant(self);
        }
        self.entries.len()
    }

    /// Whether there are no aliases.
    pub fn is_empty(&self) -> (empty: bool)
        ensures
            empty == (self@.len() == 0),
    {
        self.entries.len() == 0
    }

    /// The alias at `index`, and what it stands for.
    pub fn entry(&self, index: usize) -> (entry: (&str, &str))
        requires
            index < self@.len(),
        ensures
            (entry.0@, entry.1@) == self@[index as int],
    {
        (self.entries[index].0.as_str(), self.entries[index].1.as_str())
    }

    /// Where `alias` stands in the table, or the table's length.
    fn position(&self, alias: &str) -> (at: usize)
        ensures
            at <= self@.len(),
            forall|k: int| 0 <= k < at ==> (#[trigger] self@[k]).0 != alias@,
            at < self@.len() ==> self@[at as int].0 == alias@,
    {
        let mut at: usize = 0;
        while at < self.entries.len()
            invariant
                at <= self.entries@.len(),
                self@ == pair_texts(self.entries@),
                forall|k: int| 0 <= k < at ==> (#[trigger] self@[k]).0 != alias@,
            decreases self.entries@.len() - at,
        {
            if same_text(self.entries[at].0.as_str(), alias) {
                return at;
            }
            at += 1;
        }
        at
    }

    /// What `alias` stands for.
    pub fn get(&self, alias: &str) -> (target: Option<&str>)
        ensures
            match alias_target(self@, alias@) {
                Some(text) => target matches Some(found) && found@ == text,
                None => target is None,
            },
    {
        let at = self.position(alias);
        proof {
            lemma_alias_target(self@, alias@, at as int);
        }
        if at < self.entries.len() {
            Some(self.entries[at].1.as_str())
        } else {
            None
        }
    }

    /// Lets `alias` stand for `target`.
    pub fn insert(&mut self, alias: String, target: String)
        ensures
            final(self)@ == with_alias(old(self)@, alias@, target@),
    {
        let at = self.position(alias.as_str());
        proof {
            use_type_invariant(&*self);
            lemma_alias_target(self@, alias@, at as int);
            law_alias_insert_keeps_distinct(self@, alias@, target@);
        }
        let ghost before = self.entries@;
        let mut entries: Vec<(String, String)> = Vec::new();
        std::mem::swap(&mut self.entries, &mut entries);
        if at < entries.len() {
            entries.set(at, (alias, target));
        } else {
            entries.push((alias, target));
        }
        proof {
            assert forall|k: int| 0 <= k < before.len() && k != at && at < before.len() implies (
            #[trigger] pair_texts(before)[k]).0 != alias@ by {
                assert(pair_texts(before)[at as int].0 == alias@);
            }
            assert(pair_texts(entries@) =~= with_alias(pair_texts(before), alias@, target@));
        }
        self.entries = entries;
    }
}

impl Clone for AliasTable {
    fn clone(&self) -> (copy: AliasTable)
        ensures
            copy@ == self@,
    {
        proof {
            use_type_invariant(self);
        }
        let mut entries: Vec<(String, String)> = Vec::with_capacity(self.entries.len());
        let mut i: usize = 0;
        while i < self.entries.len()
            invariant
                i <= self.entries@.len(),
                pair_texts(entries@) == pair_texts(self.entries@).take(i as int),
            decreases self.entries@.len() - i,
        {
            let ghost before = pair_texts(entries@);
            entries.push((self.entries[i].0.clone(), self.entries[i].1.clone()));
            assert(pair_texts(entries@) =~= before.push(pair_texts(self.entries@)[i as int]));
            i += 1;
            assert(pair_texts(entries@) =~= pair_texts(self.entries@).take(i as int));
        }
        assert(pair_texts(entries@) =~= pair_texts(self.entries@));
        AliasTable { entries }
    }
}

} // verus!
