//! The variables of a session: an ordered list of names with their values.

use vstd::prelude::*;
use vstd::string::*;
use crate::text::str_eq;

verus! {

/// The mathematical content of an environment: name and value pairs in the
/// order in which the names were first bound.
pub type Bindings = Seq<(Seq<char>, Seq<char>)>;

/// Index of the first pair of `b` named `name`, or `b.len()` if there is none.
pub open spec fn position(b: Bindings, name: Seq<char>) -> int
    decreases b.len(),
{
    if b.len() == 0 {
        0
    } else if b[0].0 == name {
        0
    } else {
        1 + position(b.skip(1), name)
    }
}

/// The value bound to `name`, if any.
pub open spec fn lookup(b: Bindings, name: Seq<char>) -> Option<Seq<char>> {
    let i = position(b, name);
    if i < b.len() {
        Some(b[i].1)
    } else {
        None
    }
}

/// `b` with `name` bound to `value`: an existing pair keeps its place, a new
/// one goes to the end.
pub open spec fn bind(b: Bindings, name: Seq<char>, value: Seq<char>) -> Bindings {
    let i = position(b, name);
    if i < b.len() {
        b.update(i, (name, value))
    } else {
        b.push((name, value))
    }
}

/// The pairs that are not named `name`.
pub open spec fn not_named(name: Seq<char>) -> spec_fn((Seq<char>, Seq<char>)) -> bool {
    |e: (Seq<char>, Seq<char>)| e.0 != name
}

/// `b` without the pairs named `name`.
pub open spec fn unbind(b: Bindings, name: Seq<char>) -> Bindings {
    b.filter(not_named(name))
}

/// A name the operating system accepts for a variable: not empty, and free of
/// `=` and of the NUL character.
pub open spec fn valid_name(name: Seq<char>) -> bool {
    name.len() > 0 && !name.contains('=') && !name.contains('\0')
}

/// A value the operating system accepts for a variable: free of NUL.
pub open spec fn valid_value(value: Seq<char>) -> bool {
    !value.contains('\0')
}

/// Every name and value is acceptable and no name is bound twice.
pub open spec fn well_formed(b: Bindings) -> bool {
    &&& forall|i: int| 0 <= i < b.len() ==> valid_name(#[trigger] b[i].0)
    &&& forall|i: int| 0 <= i < b.len() ==> valid_value(#[trigger] b[i].1)
    &&& forall|i: int, j: int| 0 <= i < j < b.len() ==> #[trigger] b[i].0 != #[trigger] b[j].0
}

/// `position` is the least index that carries `name`.
pub proof fn lemma_position(b: Bindings, name: Seq<char>)
    ensures
        0 <= position(b, name) <= b.len(),
        position(b, name) < b.len() ==> b[position(b, name)].0 == name,
        forall|j: int| 0 <= j < position(b, name) ==> (#[trigger] b[j]).0 != name,
    decreases b.len(),
{
    if b.len() > 0 && b[0].0 != name {
        let rest = b.skip(1);
        lemma_position(rest, name);
        assert forall|j: int| 0 <= j < position(b, name) implies (#[trigger] b[j]).0 != name by {
            if j > 0 {
                assert(rest[j - 1] == b[j]);
            }
        }
    }
}

/// The least index that carries `name`, or the length where none does, is
/// `position`.
pub proof fn lemma_position_is(b: Bindings, name: Seq<char>, i: int)
    requires
        0 <= i <= b.len(),
        i < b.len() ==> b[i].0 == name,
        forall|j: int| 0 <= j < i ==> (#[trigger] b[j]).0 != name,
    ensures
        position(b, name) == i,
{
    lemma_position(b, name);
}

/// Looking a name up behind one more pair: an earlier pair of that name
/// wins, else the new pair answers if it has the name.
pub proof fn lemma_lookup_push(b: Bindings, pair: (Seq<char>, Seq<char>), name: Seq<char>)
    ensures
        lookup(b.push(pair), name) == if lookup(b, name) is Some {
            lookup(b, name)
        } else if pair.0 == name {
            Some(pair.1)
        } else {
            None
        },
{
    lemma_position(b, name);
    let p = position(b, name);
    let r = b.push(pair);
    if p < b.len() {
        lemma_position_is(r, name, p);
    } else {
        if pair.0 == name {
            lemma_position_is(r, name, b.len() as int);
        } else {
            lemma_position_is(r, name, r.len() as int);
        }
    }
}

/// After a name has been bound, it has the new value and every other name
/// has the value it had.
pub proof fn lemma_lookup_after_bind(
    b: Bindings,
    name: Seq<char>,
    value: Seq<char>,
    other: Seq<char>,
)
    ensures
        lookup(bind(b, name, value), name) == Some(value),
        other != name ==> lookup(bind(b, name, value), other) == lookup(b, other),
{
    lemma_position(b, name);
    lemma_position(b, other);
    let p = position(b, name);
    let r = bind(b, name, value);
    if p < b.len() {
        lemma_position_is(r, name, p);
        if other != name {
            let q = position(b, other);
            lemma_position_is(r, other, q);
        }
    } else {
        lemma_lookup_push(b, (name, value), name);
        lemma_lookup_push(b, (name, value), other);
    }
}

/// After a name has been removed, it has no value and every other name has
/// the value it had.
pub proof fn lemma_lookup_after_unbind(b: Bindings, name: Seq<char>, other: Seq<char>)
    ensures
        lookup(unbind(b, name), name) is None,
        other != name ==> lookup(unbind(b, name), other) == lookup(b, other),
    decreases b.len(),
{
    reveal(Seq::filter);
    let keep = not_named(name);
    if b.len() > 0 {
        let front = b.drop_last();
        let last = b.last();
        lemma_lookup_after_unbind(front, name, other);
        assert(b =~= front.push(last));
        lemma_lookup_push(front, last, other);
        lemma_lookup_push(front.filter(keep), last, other);
        lemma_lookup_push(front.filter(keep), last, name);
    }
}

/// The variables a shell session sees: an ordered list of names with their
/// values. One built by `new`, `set` and `remove` is [`well_formed`].
pub struct Environment {
    vars: Vec<(String, String)>,
}

/// The name and value pairs that the stored strings stand for.
pub closed spec fn pairs_view(v: Seq<(String, String)>) -> Bindings {
    Seq::new(v.len(), |i: int| (v[i].0@, v[i].1@))
}

impl View for Environment {
    type V = Bindings;

    closed spec fn view(&self) -> Bindings {
        pairs_view(self.vars@)
    }
}

fn has_char(s: &str, c: char) -> (r: bool)
    ensures
        r == s@.contains(c),
{
    let mut found = false;
    for x in it: s.chars()
        invariant
            it.seq() == s@,
            found == it.seq().take(it.index() as int).contains(c),
    {
        proof {
            let before = it.seq().take(it.index() as int);
            let after = it.seq().take(it.index() + 1);
            if before.contains(c) {
                let k = choose|k: int| 0 <= k < before.len() && before[k] == c;
                assert(after[k] == c);
            }
            if x == c {
                assert(after[after.len() - 1] == c);
            }
        }
        if x == c {
            found = true;
        }
    }
    assert(s@.take(s@.len() as int) =~= s@);
    found
}

impl Environment {
    /// An environment without variables.
    pub fn new() -> (env: Environment)
        ensures
            env@ == Seq::<(Seq<char>, Seq<char>)>::empty(),
            well_formed(env@),
    {
        Environment { vars: Vec::new() }
    }

    /// Number of variables.
    pub fn len(&self) -> (n: usize)
        ensures
            n == self@.len(),
    {
        self.vars.len()
    }

    /// Name of the `i`-th variable.
    pub fn name_at(&self, i: usize) -> (name: &str)
        requires
            i < self@.len(),
        ensures
            name@ == self@[i as int].0,
    {
        self.vars[i].0.as_str()
    }

    /// Value of the `i`-th variable.
    pub fn value_at(&self, i: usize) -> (value: &str)
        requires
            i < self@.len(),
        ensures
            value@ == self@[i as int].1,
    {
        self.vars[i].1.as_str()
    }

    fn find(&self, name: &str) -> (i: usize)
        ensures
            i == position(self@, name@),
    {
        let mut i: usize = 0;
        while i < self.vars.len()
            invariant
                i <= self.vars.len(),
                forall|j: int| 0 <= j < i ==> (#[trigger] self@[j]).0 != name@,
            decreases self.vars.len() - i,
        {
            if str_eq(self.vars[i].0.as_str(), name) {
                proof {
                    lemma_position_is(self@, name@, i as int);
                }
                return i;
            }
            i += 1;
        }
        proof {
            lemma_position_is(self@, name@, i as int);
        }
        i
    }

    /// The value of the variable `name`, if it is set.
    pub fn get(&self, name: &str) -> (value: Option<String>)
        ensures
            value.is_some() == lookup(self@, name@).is_some(),
            value.is_some() ==> value.unwrap()@ == lookup(self@, name@).unwrap(),
    {
        let i = self.find(name);
        if i < self.vars.len() {
            Some(self.vars[i].1.clone())
        } else {
            None
        }
    }

    /// Binds `name` to `value`. A name or value that the operating system
    /// would refuse is not stored, and the answer is `false`.
    pub fn set(&mut self, name: &str, value: &str) -> (stored: bool)
        ensures
            stored == (valid_name(name@) && valid_value(value@)),
            stored ==> final(self)@ == bind(old(self)@, name@, value@),
            !stored ==> final(self)@ == old(self)@,
            well_formed(old(self)@) ==> well_formed(final(self)@),
    {
        if name.unicode_len() == 0 || has_char(name, '=') || has_char(name, '\0') || has_char(
            value,
            '\0',
        ) {
            return false;
        }
        let i = self.find(name);
        let ghost before = self@;
        proof {
            lemma_position(before, name@);
        }
        let pair = (name.to_owned(), value.to_owned());
        if i < self.vars.len() {
            self.vars.set(i, pair);
            assert(self@ =~= bind(before, name@, value@));
        } else {
            self.vars.push(pair);
        }
        true
    }

    /// Removes the variable `name`, if it is set.
    pub fn remove(&mut self, name: &str)
        ensures
            final(self)@ == unbind(old(self)@, name@),
            well_formed(old(self)@) ==> well_formed(final(self)@),
    {
        let ghost before = self@;
        let ghost keep = not_named(name@);
        let mut kept: Vec<(String, String)> = Vec::new();
        let mut i: usize = 0;
        while i < self.vars.len()
            invariant
                i <= self.vars.len(),
                self@ == before,
                keep == not_named(name@),
                pairs_view(kept@) == before.take(i as int).filter(keep),
            decreases self.vars.len() - i,
        {
            proof {
                reveal(Seq::filter);
                assert(before.take(i + 1).drop_last() =~= before.take(i as int));
            }
            if !str_eq(self.vars[i].0.as_str(), name) {
                let pair = (self.vars[i].0.clone(), self.vars[i].1.clone());
                kept.push(pair);
            }
            i += 1;
        }
        assert(before.take(i as int) =~= before);
        proof {
            if well_formed(before) {
                lemma_unbind_well_formed(before, name@);
            }
        }
        self.vars = kept;
    }
}

/// Binding an acceptable name to an acceptable value keeps an environment
/// well formed.
pub proof fn lemma_bind_well_formed(b: Bindings, name: Seq<char>, value: Seq<char>)
    requires
        well_formed(b),
        valid_name(name),
        valid_value(value),
    ensures
        well_formed(bind(b, name, value)),
{
    lemma_position(b, name);
}

/// Removing a name keeps an environment well formed.
pub proof fn lemma_unbind_well_formed(b: Bindings, name: Seq<char>)
    requires
        well_formed(b),
    ensures
        well_formed(unbind(b, name)),
    decreases b.len(),
{
    reveal(Seq::filter);
    let keep = not_named(name);
    let r = b.filter(keep);
    if b.len() > 0 {
        let front = b.drop_last();
        lemma_unbind_well_formed(front, name);
        let fr = front.filter(keep);
        assert forall|i: int, j: int| 0 <= i < j < r.len() implies #[trigger] r[i].0 != #[trigger] r[j].0 by {
            if j == fr.len() {
                assert(fr.contains(fr[i]));
                front.lemma_filter_contains_rev(keep, fr[i]);
                let k = choose|k: int| 0 <= k < front.len() && front[k] == fr[i];
                assert(b[k].0 != b[b.len() - 1].0);
            }
        }
    }
}

} // verus!
