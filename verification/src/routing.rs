use vstd::prelude::*;

verus! {

/// Why a registration was refused.
#[derive(Clone, Copy, Debug, PartialEq, Eq)]
pub enum RegistrationError {
    /// The command name is taken already.
    Duplicate,
}

/// The handler that `table` holds for `command`, if any.
pub open spec fn resolve<H>(table: Map<Seq<char>, H>, command: Seq<char>) -> Option<H> {
    if table.contains_key(command) {
        Some(table[command])
    } else {
        None
    }
}

/// The table after `handler` was registered under `name`, or the refusal where
/// the name is taken.
pub open spec fn register<H>(table: Map<Seq<char>, H>, name: Seq<char>, handler: H) -> Result<
    Map<Seq<char>, H>,
    RegistrationError,
> {
    if table.contains_key(name) {
        Err(RegistrationError::Duplicate)
    } else {
        Ok(table.insert(name, handler))
    }
}

/// The full name of the command `name` below the path segment `segment`.
pub open spec fn qualified(segment: Seq<char>, name: Seq<char>) -> Seq<char> {
    segment + seq!['.'] + name
}

/// Whether `full` names a command below the path segment `segment`.
pub open spec fn below(segment: Seq<char>, full: Seq<char>) -> bool {
    &&& full.len() > segment.len()
    &&& full.subrange(0, segment.len() as int) == segment
    &&& full[segment.len() as int] == '.'
}

/// What is left of `full` after the path segment `segment` and the dot.
pub open spec fn remainder(segment: Seq<char>, full: Seq<char>) -> Seq<char> {
    full.subrange(segment.len() as int + 1, full.len() as int)
}

/// The table `sub` as it is seen from a table that holds it under `segment`:
/// every command of `sub`, by its full name.
pub open spec fn nested<H>(segment: Seq<char>, sub: Map<Seq<char>, H>) -> Map<Seq<char>, H> {
    Map::new(
        |full: Seq<char>| below(segment, full) && sub.contains_key(remainder(segment, full)),
        |full: Seq<char>| sub[remainder(segment, full)],
    )
}

/// Whether some name is a command of both tables.
pub open spec fn collide<H>(table: Map<Seq<char>, H>, other: Map<Seq<char>, H>) -> bool {
    exists|name: Seq<char>| #[trigger] table.contains_key(name) && other.contains_key(name)
}

/// The table after `sub` was nested under `segment`, or the refusal where one
/// of the full names is taken.
pub open spec fn mount<H>(
    table: Map<Seq<char>, H>,
    segment: Seq<char>,
    sub: Map<Seq<char>, H>,
) -> Result<Map<Seq<char>, H>, RegistrationError> {
    if collide(table, nested(segment, sub)) {
        Err(RegistrationError::Duplicate)
    } else {
        Ok(table.union_prefer_right(nested(segment, sub)))
    }
}

/// A qualified name lies below its segment, and what is left of it is the name.
pub proof fn lemma_qualified_splits(segment: Seq<char>, name: Seq<char>)
    ensures
        below(segment, qualified(segment, name)),
        remainder(segment, qualified(segment, name)) == name,
{
    let full = qualified(segment, name);
    assert(full.subrange(0, segment.len() as int) =~= segment);
    assert(remainder(segment, full) =~= name);
}

/// A name below a segment is the segment, a dot and what is left.
pub proof fn lemma_below_is_qualified(segment: Seq<char>, full: Seq<char>)
    requires
        below(segment, full),
    ensures
        qualified(segment, remainder(segment, full)) == full,
{
    assert(qualified(segment, remainder(segment, full)) =~= full);
}

/// Whether `name` stands at index `i` of `entries`.
spec fn at<H>(entries: Seq<(String, H)>, name: Seq<char>, i: int) -> bool {
    0 <= i < entries.len() && entries[i].0@ == name
}

/// No name stands twice in `entries`.
spec fn distinct<H>(entries: Seq<(String, H)>) -> bool {
    forall|i: int, j: int| 0 <= i < j < entries.len() ==> entries[i].0@ != entries[j].0@
}

/// The map from names to handlers that `entries` lists.
spec fn table_of<H>(entries: Seq<(String, H)>) -> Map<Seq<char>, H> {
    Map::new(
        |name: Seq<char>| exists|i: int| at(entries, name, i),
        |name: Seq<char>| entries[choose|i: int| at(entries, name, i)].1,
    )
}

proof fn lemma_table_of_entry<H>(entries: Seq<(String, H)>, i: int)
    requires
        distinct(entries),
        0 <= i < entries.len(),
    ensures
        table_of(entries).contains_key(entries[i].0@),
        table_of(entries)[entries[i].0@] == entries[i].1,
{
    let name = entries[i].0@;
    assert(at(entries, name, i));
    let j = choose|j: int| at(entries, name, j);
    assert(at(entries, name, j));
    assert(i == j);
}

proof fn lemma_table_of_absent<H>(entries: Seq<(String, H)>, name: Seq<char>)
    requires
        forall|i: int| 0 <= i < entries.len() ==> entries[i].0@ != name,
    ensures
        !table_of(entries).contains_key(name),
{
    assert forall|i: int| !at(entries, name, i) by {}
}

/// One more entry under a new name is one more command in the map.
proof fn lemma_table_of_push<H>(before: Seq<(String, H)>, entry: (String, H))
    requires
        distinct(before),
        !table_of(before).contains_key(entry.0@),
    ensures
        distinct(before.push(entry)),
        table_of(before.push(entry)) == table_of(before).insert(entry.0@, entry.1),
{
    let after = before.push(entry);
    let grown = table_of(before).insert(entry.0@, entry.1);
    assert forall|i: int, j: int| 0 <= i < j < after.len() implies after[i].0@ != after[j].0@ by {
        if j == before.len() {
            assert(at(before, before[i].0@, i));
        }
    }
    assert forall|key: Seq<char>| table_of(after).contains_key(key) <==> grown.contains_key(
        key,
    ) by {
        if table_of(after).contains_key(key) {
            let i = choose|i: int| at(after, key, i);
            if i < before.len() {
                assert(at(before, key, i));
            }
        }
        if table_of(before).contains_key(key) {
            let i = choose|i: int| at(before, key, i);
            assert(at(after, key, i));
        }
        if key == entry.0@ {
            assert(at(after, key, before.len() as int));
        }
    }
    assert forall|key: Seq<char>| table_of(after).contains_key(key) implies table_of(after)[key]
        == grown[key] by {
        let i = choose|i: int| at(after, key, i);
        lemma_table_of_entry(after, i);
        if i < before.len() {
            lemma_table_of_entry(before, i);
        }
    }
    assert(table_of(after) =~= grown);
}

/// Whether `moved` holds the entries of `inner` in reverse, each under its
/// full name below `segment`.
spec fn staged_from<H>(
    moved: Seq<(String, H)>,
    segment: Seq<char>,
    inner: Seq<(String, H)>,
) -> bool {
    &&& moved.len() <= inner.len()
    &&& forall|t: int|
        0 <= t < moved.len() ==> (#[trigger] moved[t]).0@ == qualified(
            segment,
            inner[inner.len() - 1 - t].0@,
        ) && moved[t].1 == inner[inner.len() - 1 - t].1
}

/// No name of `moved` stands in `before`.
spec fn apart<H>(before: Seq<(String, H)>, moved: Seq<(String, H)>) -> bool {
    forall|t: int, i: int|
        0 <= t < moved.len() && 0 <= i < before.len() ==> (#[trigger] moved[t]).0@ != (
        #[trigger] before[i]).0@
}

/// The entries of a table followed by all the entries of another, each under
/// its full name below `segment`, list the first table with the other nested
/// in it.
proof fn lemma_table_of_nested<H>(
    before: Seq<(String, H)>,
    moved: Seq<(String, H)>,
    segment: Seq<char>,
    inner: Seq<(String, H)>,
)
    requires
        distinct(before),
        distinct(inner),
        staged_from(moved, segment, inner),
        moved.len() == inner.len(),
        apart(before, moved),
    ensures
        distinct(before + moved),
        !collide(table_of(before), nested(segment, table_of(inner))),
        table_of(before + moved) == table_of(before).union_prefer_right(
            nested(segment, table_of(inner)),
        ),
{
    let after = before + moved;
    let hung = nested(segment, table_of(inner));
    let joined = table_of(before).union_prefer_right(hung);
    assert forall|t: int, u: int| 0 <= t < u < moved.len() implies moved[t].0@ != moved[u].0@ by {
        lemma_qualified_splits(segment, inner[inner.len() - 1 - t].0@);
        lemma_qualified_splits(segment, inner[inner.len() - 1 - u].0@);
    }
    assert forall|i: int, j: int| 0 <= i < j < after.len() implies after[i].0@ != after[j].0@ by {
        if i < before.len() && j >= before.len() {
            assert(moved[j - before.len()].0@ != before[i].0@);
        }
    }
    assert forall|key: Seq<char>| hung.contains_key(key) implies exists|t: int|
        at(moved, key, t) by {
        let j = choose|j: int| at(inner, remainder(segment, key), j);
        lemma_below_is_qualified(segment, key);
        assert(at(moved, key, inner.len() - 1 - j));
    }
    assert forall|key: Seq<char>, t: int| at(moved, key, t) implies hung.contains_key(key)
        && hung[key] == moved[t].1 by {
        lemma_qualified_splits(segment, inner[inner.len() - 1 - t].0@);
        lemma_table_of_entry(inner, inner.len() - 1 - t);
    }
    assert(!collide(table_of(before), hung)) by {
        if collide(table_of(before), hung) {
            let key = choose|key: Seq<char>| #[trigger]
                table_of(before).contains_key(key) && hung.contains_key(key);
            let t = choose|t: int| at(moved, key, t);
            let i = choose|i: int| at(before, key, i);
            assert(moved[t].0@ != before[i].0@);
        }
    }
    assert forall|key: Seq<char>| table_of(after).contains_key(key) <==> joined.contains_key(
        key,
    ) by {
        if table_of(after).contains_key(key) {
            let i = choose|i: int| at(after, key, i);
            if i < before.len() {
                assert(at(before, key, i));
            } else {
                assert(at(moved, key, i - before.len()));
            }
        }
        if table_of(before).contains_key(key) {
            let i = choose|i: int| at(before, key, i);
            assert(at(after, key, i));
        }
        if hung.contains_key(key) {
            let t = choose|t: int| at(moved, key, t);
            assert(at(after, key, before.len() + t));
        }
    }
    assert forall|key: Seq<char>| table_of(after).contains_key(key) implies table_of(after)[key]
        == joined[key] by {
        let i = choose|i: int| at(after, key, i);
        lemma_table_of_entry(after, i);
        if i < before.len() {
            lemma_table_of_entry(before, i);
            if hung.contains_key(key) {
                let t = choose|t: int| at(moved, key, t);
                assert(moved[t].0@ != before[i].0@);
            }
        } else {
            assert(at(moved, key, i - before.len()));
        }
    }
    assert(table_of(after) =~= joined);
}

/// The routing table: command names, each with its handler. It is filled
/// before dispatch starts and only read after that.
pub struct Module<H> {
    entries: Vec<(String, H)>,
}

impl<H> View for Module<H> {
    type V = Map<Seq<char>, H>;

    closed spec fn view(&self) -> Map<Seq<char>, H> {
        table_of(self.entries@)
    }
}

impl<H> Module<H> {
    #[verifier::type_invariant]
    spec fn names_are_distinct(self) -> bool {
        distinct(self.entries@)
    }

    /// A table without commands.
    pub fn new() -> (table: Module<H>)
        ensures
            table@ == Map::<Seq<char>, H>::empty(),
    {
        let table = Module { entries: Vec::new() };
        proof {
            assert forall|name: Seq<char>| !table_of(table.entries@).contains_key(name) by {
                lemma_table_of_absent(table.entries@, name);
            }
            assert(table@ =~= Map::<Seq<char>, H>::empty());
        }
        table
    }

    /// Where `name` stands among the entries.
    fn position(&self, name: &String) -> (found: Option<usize>)
        ensures
            match found {
                Some(i) => at(self.entries@, name@, i as int),
                None => forall|i: int| 0 <= i < self.entries@.len() ==> self.entries@[i].0@ != name@,
            },
    {
        let mut i: usize = 0;
        while i < self.entries.len()
            invariant
                i <= self.entries@.len(),
                forall|k: int| 0 <= k < i ==> self.entries@[k].0@ != name@,
            decreases self.entries@.len() - i,
        {
            if self.entries[i].0 == *name {
                return Some(i);
            }
            i += 1;
        }
        None
    }

    /// The handler registered under `command`, by exact match of the name.
    pub fn lookup(&self, command: &str) -> (found: Option<&H>)
        ensures
            match found {
                Some(handler) => resolve(self@, command@) == Some(*handler),
                None => resolve(self@, command@) is None,
            },
    {
        proof {
            use_type_invariant(self);
        }
        let wanted = command.to_owned();
        match self.position(&wanted) {
            Some(i) => {
                proof {
                    lemma_table_of_entry(self.entries@, i as int);
                }
                Some(&self.entries[i].1)
            },
            None => {
                proof {
                    lemma_table_of_absent(self.entries@, command@);
                }
                None
            },
        }
    }

    /// Whether a handler is registered under `command`.
    pub fn contains(&self, command: &str) -> (held: bool)
        ensures
            held == self@.contains_key(command@),
    {
        self.lookup(command).is_some()
    }

    /// Registers `handler` under `name`. A name that is taken is refused and
    /// the table stays as it was: nothing is ever overwritten.
    pub fn handler(&mut self, name: &str, handler: H) -> (done: Result<(), RegistrationError>)
        ensures
            match done {
                Ok(()) => register(old(self)@, name@, handler) == Ok::<
                    Map<Seq<char>, H>,
                    RegistrationError,
                >(final(self)@),
                Err(refusal) => register(old(self)@, name@, handler) == Err::<
                    Map<Seq<char>, H>,
                    RegistrationError,
                >(refusal) && final(self)@ == old(self)@,
            },
    {
        proof {
            use_type_invariant(&*self);
        }
        let owned = name.to_owned();
        match self.position(&owned) {
            Some(i) => {
                proof {
                    lemma_table_of_entry(self.entries@, i as int);
                }
                Err(RegistrationError::Duplicate)
            },
            None => {
                let ghost before = self.entries@;
                proof {
                    lemma_table_of_absent(before, name@);
                    lemma_table_of_push(before, (owned, handler));
                }
                let mut entries: Vec<(String, H)> = Vec::new();
                core::mem::swap(&mut self.entries, &mut entries);
                entries.push((owned, handler));
                core::mem::swap(&mut self.entries, &mut entries);
                Ok(())
            },
        }
    }

    /// Nests `sub` under the path segment `segment`: each command `name` of
    /// `sub` becomes the command `segment.name` of this table. Where one of
    /// these full names is taken, the nesting is refused and the table stays
    /// as it was.
    pub fn module(&mut self, segment: &str, sub: Module<H>) -> (done: Result<(), RegistrationError>)
        ensures
            match done {
                Ok(()) => mount(old(self)@, segment@, sub@) == Ok::<
                    Map<Seq<char>, H>,
                    RegistrationError,
                >(final(self)@),
                Err(refusal) => mount(old(self)@, segment@, sub@) == Err::<
                    Map<Seq<char>, H>,
                    RegistrationError,
                >(refusal) && final(self)@ == old(self)@,
            },
    {
        proof {
            use_type_invariant(&*self);
            use_type_invariant(&sub);
            reveal_strlit(".");
        }
        let ghost before = self.entries@;
        let ghost inner = sub.entries@;
        let prefix = segment.to_owned().concat(".");
        assert(prefix@ =~= segment@ + seq!['.']);
        let mut pending = sub.entries;
        let mut staged: Vec<(String, H)> = Vec::new();
        while pending.len() > 0
            invariant
                self.entries@ == before,
                old(self).entries@ == before,
                sub.entries@ == inner,
                distinct(before),
                distinct(inner),
                prefix@ == segment@ + seq!['.'],
                pending@.len() + staged@.len() == inner.len(),
                pending@ == inner.subrange(0, pending@.len() as int),
                staged_from(staged@, segment@, inner),
                apart(before, staged@),
            decreases pending@.len(),
        {
            let ghost at_hand = pending@.len() - 1;
            let (name, handler) = pending.pop().unwrap();
            let full = prefix.clone().concat(name.as_str());
            assert(full@ =~= qualified(segment@, inner[at_hand].0@));
            match self.position(&full) {
                Some(i) => {
                    proof {
                        lemma_table_of_entry(before, i as int);
                        lemma_table_of_entry(inner, at_hand);
                        lemma_qualified_splits(segment@, inner[at_hand].0@);
                        assert(table_of(before).contains_key(full@) && nested(
                            segment@,
                            table_of(inner),
                        ).contains_key(full@));
                    }
                    return Err(RegistrationError::Duplicate);
                },
                None => {
                    staged.push((full, handler));
                },
            }
        }
        proof {
            lemma_table_of_nested(before, staged@, segment@, inner);
        }
        let mut entries: Vec<(String, H)> = Vec::new();
        core::mem::swap(&mut self.entries, &mut entries);
        entries.append(&mut staged);
        core::mem::swap(&mut self.entries, &mut entries);
        Ok(())
    }
}

/// Looking a command up again in the same table finds the same handler.
pub proof fn lemma_lookup_is_repeatable<H>(
    table: Map<Seq<char>, H>,
    first: Seq<char>,
    second: Seq<char>,
)
    requires
        first == second,
    ensures
        resolve(table, first) == resolve(table, second),
{
}

/// A name that was registered cannot be registered again: the second
/// registration is refused, whatever handler it brings.
pub proof fn lemma_second_registration_is_refused<H>(
    table: Map<Seq<char>, H>,
    name: Seq<char>,
    first: H,
    second: H,
)
    ensures
        register(table, name, first) matches Ok(filled) ==> register(filled, name, second) == Err::<
            Map<Seq<char>, H>,
            RegistrationError,
        >(RegistrationError::Duplicate),
{
}

/// Neither registering nor nesting overwrites: every command that the table
/// held resolves afterwards to the handler it had.
pub proof fn lemma_registration_keeps_handlers<H>(
    table: Map<Seq<char>, H>,
    name: Seq<char>,
    handler: H,
    segment: Seq<char>,
    sub: Map<Seq<char>, H>,
    command: Seq<char>,
)
    requires
        table.contains_key(command),
    ensures
        register(table, name, handler) matches Ok(filled) ==> resolve(filled, command) == resolve(
            table,
            command,
        ),
        mount(table, segment, sub) matches Ok(filled) ==> resolve(filled, command) == resolve(
            table,
            command,
        ),
{
}

/// Below its segment a nested table answers as it did alone: the command
/// `segment.name` resolves to what `name` resolved to in the nested table.
pub proof fn lemma_nested_commands_resolve<H>(
    table: Map<Seq<char>, H>,
    segment: Seq<char>,
    sub: Map<Seq<char>, H>,
    name: Seq<char>,
)
    ensures
        mount(table, segment, sub) matches Ok(filled) ==> resolve(
            filled,
            qualified(segment, name),
        ) == if sub.contains_key(name) {
            resolve(sub, name)
        } else {
            resolve(table, qualified(segment, name))
        },
{
    lemma_qualified_splits(segment, name);
}

} // verus!
