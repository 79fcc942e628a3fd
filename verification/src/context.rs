//! The context of an evaluation: the properties that an expression asks
//! for, and the values known of them so far.

use vstd::prelude::*;
use vstd::string::StringExecFns;
use crate::sequence::{distinct, lemma_distinct};
use crate::domain::{mismatch, same, Property};
use crate::error::{Error, Result};
use crate::value::{Value, ValueView};

verus! {

/// The map that a list of entries stands for: each property with the value
/// beside it, a later entry before an earlier one of the same property.
pub open spec fn known_of<Pid>(entries: Seq<(Pid, ValueView)>) -> Map<Pid, ValueView>
    decreases entries.len(),
{
    if entries.len() == 0 {
        Map::empty()
    } else {
        known_of(entries.drop_last()).insert(entries.last().0, entries.last().1)
    }
}

/// No property has two entries.
pub open spec fn distinct_keys<Pid>(entries: Seq<(Pid, ValueView)>) -> bool {
    forall|i: int, j: int|
        0 <= i < j < entries.len() ==> (#[trigger] entries[i]).0 != (#[trigger] entries[j]).0
}

/// The entries after `value` has been recorded for `property`: in the place
/// of the property's entry if it has one, else at the end.
pub open spec fn recorded<Pid>(
    entries: Seq<(Pid, ValueView)>,
    property: Pid,
    value: ValueView,
) -> Seq<(Pid, ValueView)> {
    if exists|i: int| 0 <= i < entries.len() && (#[trigger] entries[i]).0 == property {
        let i = choose|i: int| 0 <= i < entries.len() && (#[trigger] entries[i]).0 == property;
        entries.update(i, (property, value))
    } else {
        entries.push((property, value))
    }
}

/// The properties of a list of entries, in order.
pub open spec fn keys_of<Pid>(entries: Seq<(Pid, ValueView)>) -> Seq<Pid> {
    entries.map_values(|e: (Pid, ValueView)| e.0)
}

/// The map of a list holds exactly the properties that have an entry.
pub proof fn lemma_known_dom<Pid>(entries: Seq<(Pid, ValueView)>, property: Pid)
    ensures
        known_of(entries).dom().contains(property) <==> exists|i: int|
            0 <= i < entries.len() && (#[trigger] entries[i]).0 == property,
    decreases entries.len(),
{
    if entries.len() > 0 {
        let before = entries.drop_last();
        lemma_known_dom(before, property);
        if exists|i: int| 0 <= i < before.len() && (#[trigger] before[i]).0 == property {
            let i = choose|i: int| 0 <= i < before.len() && (#[trigger] before[i]).0 == property;
            assert(entries[i].0 == property);
        }
        if exists|i: int| 0 <= i < entries.len() && (#[trigger] entries[i]).0 == property {
            let i = choose|i: int| 0 <= i < entries.len() && (#[trigger] entries[i]).0 == property;
            if i < before.len() {
                assert(before[i].0 == property);
            }
        }
    }
}

/// Where no property has two entries, the map gives each property the
/// value of its entry.
pub proof fn lemma_known_at<Pid>(entries: Seq<(Pid, ValueView)>, i: int)
    requires
        distinct_keys(entries),
        0 <= i < entries.len(),
    ensures
        known_of(entries).dom().contains(entries[i].0),
        known_of(entries)[entries[i].0] == entries[i].1,
    decreases entries.len(),
{
    let before = entries.drop_last();
    if i < entries.len() - 1 {
        assert(distinct_keys(before)) by {
            assert forall|a: int, b: int| 0 <= a < b < before.len() implies (#[trigger] before[a]).0 != (
            #[trigger] before[b]).0 by {
                assert(entries[a].0 != entries[b].0);
            }
        }
        lemma_known_at(before, i);
        assert(entries[i].0 != entries[entries.len() - 1].0);
    }
}

/// Recording a value changes the map in one place.
pub proof fn lemma_recorded<Pid>(entries: Seq<(Pid, ValueView)>, property: Pid, value: ValueView)
    requires
        distinct_keys(entries),
    ensures
        distinct_keys(recorded(entries, property, value)),
        known_of(recorded(entries, property, value)) == known_of(entries).insert(property, value),
{
    let after = recorded(entries, property, value);
    assert(distinct_keys(after)) by {
        assert forall|a: int, b: int| 0 <= a < b < after.len() implies (#[trigger] after[a]).0 != (
        #[trigger] after[b]).0 by {
            if a < entries.len() && b < entries.len() {
                assert(entries[a].0 != entries[b].0);
            }
        }
    }
    assert forall|p: Pid| #[trigger]
        known_of(after).dom().contains(p) <==> known_of(entries).insert(property, value).dom().contains(
            p,
        ) by {
        lemma_known_dom(after, p);
        lemma_known_dom(entries, p);
        if exists|i: int| 0 <= i < entries.len() && (#[trigger] entries[i]).0 == p {
            let i = choose|i: int| 0 <= i < entries.len() && (#[trigger] entries[i]).0 == p;
            assert(after[i].0 == p);
        }
        if exists|i: int| 0 <= i < after.len() && (#[trigger] after[i]).0 == p {
            let i = choose|i: int| 0 <= i < after.len() && (#[trigger] after[i]).0 == p;
            if p != property {
                assert(entries[i].0 == p);
            }
        } else if p == property {
            if exists|i: int| 0 <= i < entries.len() && (#[trigger] entries[i]).0 == property {
                let i = choose|i: int| 0 <= i < entries.len() && (#[trigger] entries[i]).0 == property;
                assert(after[i].0 == p);
            } else {
                assert(after[after.len() - 1].0 == p);
            }
        }
    }
    assert forall|p: Pid| #[trigger] known_of(after).dom().contains(p) implies known_of(after)[p]
        == known_of(entries).insert(property, value)[p] by {
        lemma_known_dom(after, p);
        let i = choose|i: int| 0 <= i < after.len() && (#[trigger] after[i]).0 == p;
        lemma_known_at(after, i);
        if p != property {
            assert(entries[i].0 == p);
            lemma_known_at(entries, i);
        } else if exists|k: int| 0 <= k < entries.len() && (#[trigger] entries[k]).0 == property {
            let k = choose|k: int| 0 <= k < entries.len() && (#[trigger] entries[k]).0 == property;
            assert(after[k].0 == property);
            if i < k {
                assert(after[i].0 != after[k].0);
            }
            if k < i {
                assert(after[k].0 != after[i].0);
            }
        } else {
            if i < entries.len() {
                assert(entries[i].0 == property);
            }
        }
    }
    assert(known_of(after) =~= known_of(entries).insert(property, value));
}

/// The mathematical content of a [`Context`]: the requested properties in
/// the order in which they were first named, and the entries in the order
/// in which their properties were first provided.
pub struct ContextView<Pid> {
    pub requested: Seq<Pid>,
    pub provided: Seq<(Pid, ValueView)>,
}

impl<Pid: Property> ContextView<Pid> {
    /// No property is requested twice or has two entries, and each entry is
    /// for a requested property and holds a value of its datatype.
    pub open spec fn wf(self) -> bool {
        &&& self.requested.no_duplicates()
        &&& distinct_keys(self.provided)
        &&& forall|i: int|
            0 <= i < self.provided.len() ==> {
                &&& self.requested.contains((#[trigger] self.provided[i]).0)
                &&& self.provided[i].1.datatype() == self.provided[i].0.datatype_spec()
            }
    }

    /// The set of requested properties.
    pub open spec fn wanted(self) -> Set<Pid> {
        self.requested.to_set()
    }

    /// The value known of each property that has one.
    pub open spec fn known(self) -> Map<Pid, ValueView> {
        known_of(self.provided)
    }

    /// The context as text: the requested properties, then the entries.
    pub open spec fn rendering(self) -> Seq<char> {
        "requested: ["@ + names_text(self.requested, self.requested.len() as int) + "], provided: ["@
            + entries_text(self.provided, self.provided.len() as int) + "]"@
    }
}

/// The names of the first `n` properties of a list, each followed by a
/// comma and a space.
pub open spec fn names_text<Pid: Property>(ids: Seq<Pid>, n: int) -> Seq<char>
    decreases n,
{
    if n <= 0 {
        Seq::empty()
    } else {
        names_text(ids, n - 1) + ids[n - 1].name_spec() + ", "@
    }
}

/// The first `n` entries of a list as text: the property's name, a colon
/// and the value, each entry followed by a comma and a space.
pub open spec fn entries_text<Pid: Property>(entries: Seq<(Pid, ValueView)>, n: int) -> Seq<char>
    decreases n,
{
    if n <= 0 {
        Seq::empty()
    } else {
        entries_text(entries, n - 1) + entries[n - 1].0.name_spec() + ": "@ + entries[n - 1].1.rendering()
            + ", "@
    }
}

/// The entries of a context, each value taken by its view.
pub open spec fn entries_view<Pid>(entries: Seq<(Pid, Value)>) -> Seq<(Pid, ValueView)> {
    entries.map_values(|e: (Pid, Value)| (e.0, e.1@))
}

/// Whether the list names the identifier.
fn listed<Pid: Property>(ids: &Vec<Pid>, id: Pid) -> (found: bool)
    ensures
        found == ids@.contains(id),
{
    let mut i: usize = 0;
    while i < ids.len()
        invariant
            i <= ids.len(),
            forall|j: int| 0 <= j < i ==> ids@[j] != id,
        decreases ids.len() - i,
    {
        if same(&ids[i], &id) {
            return true;
        }
        i += 1;
    }
    false
}

/// The place of the property's entry, if it has one.
fn position<Pid: Property>(entries: &Vec<(Pid, Value)>, property: Pid) -> (at: Option<usize>)
    ensures
        match at {
            Some(i) => i < entries.len() && entries[i as int].0 == property,
            None => forall|j: int| 0 <= j < entries.len() ==> (#[trigger] entries[j]).0 != property,
        },
{
    let mut i: usize = 0;
    while i < entries.len()
        invariant
            i <= entries.len(),
            forall|j: int| 0 <= j < i ==> (#[trigger] entries[j]).0 != property,
        decreases entries.len() - i,
    {
        if same(&entries[i].0, &property) {
            return Some(i);
        }
        i += 1;
    }
    None
}

/// The requested properties of an expression and the values provided for
/// them so far.
#[derive(Debug)]
pub struct Context<Pid: Property> {
    requested: Vec<Pid>,
    provided: Vec<(Pid, Value)>,
}

impl<Pid: Property> View for Context<Pid> {
    type V = ContextView<Pid>;

    closed spec fn view(&self) -> ContextView<Pid> {
        ContextView { requested: self.requested@, provided: entries_view(self.provided@) }
    }
}

impl<Pid: Property> Context<Pid> {
    /// Holds of every context: see [`ContextView::wf`].
    #[verifier::type_invariant]
    pub open spec fn wf(self) -> bool {
        self@.wf()
    }

    /// A context that requests nothing and knows nothing.
    pub fn empty() -> (context: Context<Pid>)
        ensures
            context@.requested == Seq::<Pid>::empty(),
            context@.provided == Seq::<(Pid, ValueView)>::empty(),
    {
        let context = Context { requested: Vec::new(), provided: Vec::new() };
        assert(context@.provided =~= Seq::<(Pid, ValueView)>::empty());
        context
    }

    /// A context that requests the given properties, each once, and knows
    /// nothing yet.
    pub fn request(props: Vec<Pid>) -> (context: Context<Pid>)
        ensures
            context@.requested == distinct(props@),
            context@.wanted() == props@.to_set(),
            context@.provided == Seq::<(Pid, ValueView)>::empty(),
    {
        let mut requested: Vec<Pid> = Vec::new();
        let mut i: usize = 0;
        while i < props.len()
            invariant
                i <= props.len(),
                requested@ == distinct(props@.take(i as int)),
            decreases props.len() - i,
        {
            assert(props@.take(i + 1).drop_last() =~= props@.take(i as int));
            if !listed(&requested, props[i]) {
                requested.push(props[i]);
            }
            i += 1;
        }
        proof {
            assert(props@.take(i as int) =~= props@);
            lemma_distinct(props@);
            assert(requested@.to_set() =~= props@.to_set()) by {
                assert forall|p: Pid| requested@.to_set().contains(p) <==> props@.to_set().contains(p) by {
                    assert(requested@.contains(p) <==> props@.contains(p));
                }
            }
        }
        let context = Context { requested, provided: Vec::new() };
        assert(context@.provided =~= Seq::<(Pid, ValueView)>::empty());
        context
    }

    /// Records a value for a property. A value for a property that was not
    /// requested is dropped; a second value for a property takes the place
    /// of the first. Fails with `TypeMismatch`, and changes nothing, when
    /// the value is not of the property's datatype.
    pub fn provide(&mut self, property: Pid, value: Value) -> (taken: Result<()>)
        ensures
            final(self)@.requested == old(self)@.requested,
            property.datatype_spec() != value@.datatype() ==> {
                &&& taken matches Err(e) && e@ == mismatch(property, value@.datatype())
                &&& final(self)@ == old(self)@
            },
            property.datatype_spec() == value@.datatype() ==> {
                &&& taken is Ok
                &&& old(self)@.wanted().contains(property) ==> {
                    &&& final(self)@.provided == recorded(old(self)@.provided, property, value@)
                    &&& final(self)@.known() == old(self)@.known().insert(property, value@)
                }
                &&& !old(self)@.wanted().contains(property) ==> final(self)@ == old(self)@
            },
    {
        proof {
            use_type_invariant(&*self);
        }
        if property.datatype() != value.datatype() {
            return Err(Error::TypeMismatch(property.name(), property.datatype(), value.datatype()));
        }
        if listed(&self.requested, property) {
            let ghost before = self@.provided;
            let mut entries: Vec<(Pid, Value)> = Vec::new();
            assert(entries_view(entries@) =~= Seq::<(Pid, ValueView)>::empty());
            std::mem::swap(&mut self.provided, &mut entries);
            let ghost shown = value@;
            match position(&entries, property) {
                Some(i) => {
                    assert(before[i as int].0 == property);
                    entries[i] = (property, value);
                    proof {
                        let k = choose|k: int| 0 <= k < before.len() && (#[trigger] before[k]).0 == property;
                        if k < i {
                            assert(before[k].0 != before[i as int].0);
                        }
                        if i < k {
                            assert(before[i as int].0 != before[k].0);
                        }
                        assert(entries_view(entries@) =~= before.update(i as int, (property, shown)));
                    }
                },
                None => {
                    entries.push((property, value));
                    proof {
                        assert forall|k: int| 0 <= k < before.len() implies (#[trigger] before[k]).0
                            != property by {
                            assert(entries[k].0 != property);
                        }
                        assert(entries_view(entries@) =~= before.push((property, shown)));
                    }
                },
            }
            proof {
                assert(entries_view(entries@) == recorded(before, property, shown));
                lemma_recorded(before, property, shown);
                let after = entries_view(entries@);
                assert forall|k: int| 0 <= k < after.len() implies {
                    &&& self.requested@.contains((#[trigger] after[k]).0)
                    &&& after[k].1.datatype() == after[k].0.datatype_spec()
                } by {
                    if after[k] != (property, shown) {
                        assert(after[k] == before[k]);
                    }
                }
            }
            self.provided = entries;
        }
        Ok(())
    }

    /// The requested properties, each once.
    pub fn requested(&self) -> (ids: Vec<Pid>)
        ensures
            ids@ == self@.requested,
            ids@.no_duplicates(),
    {
        proof {
            use_type_invariant(self);
        }
        let mut ids: Vec<Pid> = Vec::new();
        let mut i: usize = 0;
        while i < self.requested.len()
            invariant
                i <= self.requested.len(),
                ids@ == self.requested@.take(i as int),
            decreases self.requested.len() - i,
        {
            ids.push(self.requested[i]);
            i += 1;
            assert(ids@ =~= self.requested@.take(i as int));
        }
        assert(ids@ =~= self.requested@);
        ids
    }

    /// The properties that have a value, each once.
    pub fn provided(&self) -> (ids: Vec<Pid>)
        ensures
            ids@ == keys_of(self@.provided),
            ids@.no_duplicates(),
            ids@.to_set() == self@.known().dom(),
    {
        proof {
            use_type_invariant(self);
        }
        let ghost entries = self@.provided;
        let mut ids: Vec<Pid> = Vec::new();
        let mut i: usize = 0;
        while i < self.provided.len()
            invariant
                i <= self.provided.len(),
                entries == entries_view(self.provided@),
                ids@ == keys_of(entries).take(i as int),
            decreases self.provided.len() - i,
        {
            ids.push(self.provided[i].0);
            i += 1;
            assert(ids@ =~= keys_of(entries).take(i as int));
        }
        proof {
            assert(ids@ =~= keys_of(entries));
            assert forall|a: int, b: int| 0 <= a < ids@.len() && 0 <= b < ids@.len() && a != b implies ids@[a]
                != ids@[b] by {
                if a < b {
                    assert(entries[a].0 != entries[b].0);
                } else {
                    assert(entries[b].0 != entries[a].0);
                }
            }
            assert forall|p: Pid| ids@.to_set().contains(p) <==> known_of(entries).dom().contains(p) by {
                lemma_known_dom(entries, p);
                if ids@.contains(p) {
                    let k = choose|k: int| 0 <= k < ids@.len() && ids@[k] == p;
                    assert(entries[k].0 == p);
                }
                if exists|k: int| 0 <= k < entries.len() && (#[trigger] entries[k]).0 == p {
                    let k = choose|k: int| 0 <= k < entries.len() && (#[trigger] entries[k]).0 == p;
                    assert(ids@[k] == p);
                }
            }
            assert(ids@.to_set() =~= self@.known().dom());
        }
        ids
    }

    /// The context as text.
    pub fn render(&self) -> (text: String)
        ensures
            text@ == self@.rendering(),
    {
        let mut text = String::from_str("requested: [");
        let ghost head = text@;
        let mut i: usize = 0;
        while i < self.requested.len()
            invariant
                i <= self.requested.len(),
                text@ == head + names_text(self@.requested, i as int),
            decreases self.requested.len() - i,
        {
            text.append(self.requested[i].name());
            text.append(", ");
            i += 1;
            assert(text@ =~= head + names_text(self@.requested, i as int));
        }
        text.append("], provided: [");
        let ghost middle = text@;
        let mut k: usize = 0;
        while k < self.provided.len()
            invariant
                k <= self.provided.len(),
                text@ == middle + entries_text(self@.provided, k as int),
            decreases self.provided.len() - k,
        {
            text.append(self.provided[k].0.name());
            text.append(": ");
            text.append(self.provided[k].1.render().as_str());
            text.append(", ");
            k += 1;
            assert(text@ =~= middle + entries_text(self@.provided, k as int));
        }
        text.append("]");
        assert(text@ =~= self@.rendering());
        text
    }

    /// The value known of a property, if there is one.
    pub fn value(&self, property: Pid) -> (held: Option<&Value>)
        ensures
            match held {
                Some(value) => {
                    &&& self@.known().dom().contains(property)
                    &&& value@ == self@.known()[property]
                    &&& value@.datatype() == property.datatype_spec()
                },
                None => !self@.known().dom().contains(property),
            },
    {
        proof {
            use_type_invariant(self);
            lemma_known_dom(self@.provided, property);
        }
        match position(&self.provided, property) {
            Some(i) => {
                proof {
                    assert(self@.provided[i as int].0 == property);
                    lemma_known_at(self@.provided, i as int);
                }
                Some(&self.provided[i].1)
            },
            None => {
                proof {
                    if exists|k: int| 0 <= k < self@.provided.len() && (#[trigger] self@.provided[k]).0 == property {
                        let k = choose|k: int| 0 <= k < self@.provided.len() && (#[trigger] self@.provided[k]).0 == property;
                        assert(self.provided[k].0 == property);
                    }
                }
                None
            },
        }
    }
}

} // verus!
