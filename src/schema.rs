//! Message and signal definitions, and the registry that finds a message's
//! definition by its identifier.

use vstd::prelude::*;

verus! {

/// The value that an absent `is_big_endian` takes: Motorola order.
pub fn default_as_true() -> (r: bool)
    ensures
        r,
{
    true
}

/// One named bit field in a message payload.
#[derive(Debug)]
pub struct SignalDefinition {
    pub name: String,
    /// First bit, numbered in the signal's own bit order; absent means the
    /// start of the first byte in that order.
    pub start: Option<i32>,
    /// Width in bits; zero declares a signal that carries no data.
    pub length: i32,
    /// Motorola (big-endian) bit numbering when true, Intel when false.
    pub is_big_endian: bool,
    pub default: Option<String>,
    pub multiplexer_signal: Option<String>,
    pub spn: Option<String>,
    /// Enumerated labels and the raw values they stand for.
    pub choices: Option<Vec<(String, i32)>>,
    pub unit: Option<String>,
    pub comment: Option<String>,
    pub is_signed: Option<bool>,
    pub is_multiplexer: Option<bool>,
    pub is_float: Option<bool>,
}

/// Whether `i` is the first entry of `choices` that stands for `raw`.
pub open spec fn is_first_choice(choices: Seq<(String, i32)>, raw: int, i: int) -> bool {
    0 <= i < choices.len() && choices[i].1 as int == raw && forall|k: int| 0 <= k < i ==> choices[k].1 as int != raw
}

impl SignalDefinition {
    /// The enumerated label of a raw value: the first choice that stands for it.
    pub fn choice_label(&self, raw: u128) -> (r: Option<&String>)
        ensures
            self.choices is None ==> r is None,
            r matches Some(label) ==> exists|i: int|
                #[trigger] is_first_choice(self.choices->0@, raw as int, i) && *label == self.choices->0@[i].0,
            self.choices is Some && r is None ==> forall|i: int|
                0 <= i < self.choices->0@.len() ==> self.choices->0@[i].1 as int != raw as int,
    {
        match &self.choices {
            None => None,
            Some(c) => {
                let mut i: usize = 0;
                while i < c.len()
                    invariant
                        self.choices == Some(*c),
                        0 <= i <= c@.len(),
                        forall|k: int| 0 <= k < i ==> c@[k].1 as int != raw as int,
                    decreases c@.len() - i,
                {
                    let value = c[i].1;
                    if value >= 0 && value as u128 == raw {
                        let label = &c[i].0;
                        assert(self.choices->0@ == c@);
                        assert(is_first_choice(self.choices->0@, raw as int, i as int));
                        assert(*label == self.choices->0@[i as int].0);
                        return Some(label);
                    }
                    i = i + 1;
                }
                None
            },
        }
    }
}

/// The layout of the messages that carry one identifier.
#[derive(Debug)]
pub struct MessageDefinition {
    pub name: String,
    /// Declared payload length in bytes; the wire header's length is the one used.
    pub length: i32,
    pub id: i32,
    pub comment: Option<String>,
    /// Signals in the order in which they are reported.
    pub signals: Vec<SignalDefinition>,
}

/// The last definition of `defs[lo..]` that carries `id`, if any.
pub open spec fn last_with_id(defs: Seq<MessageDefinition>, lo: int, id: i32) -> Option<MessageDefinition>
    decreases defs.len() - lo,
{
    if lo < 0 || lo >= defs.len() {
        None
    } else {
        match last_with_id(defs, lo + 1, id) {
            Some(d) => Some(d),
            None => if defs[lo].id == id {
                Some(defs[lo])
            } else {
                None
            },
        }
    }
}

/// No two definitions of `defs` share an identifier.
pub open spec fn ids_unique(defs: Seq<MessageDefinition>) -> bool {
    forall|i: int, j: int| 0 <= i < defs.len() && 0 <= j < defs.len() && defs[i].id == defs[j].id ==> i == j
}

/// The definition of `defs` that carries `id`, if any.
pub open spec fn find_id(defs: Seq<MessageDefinition>, id: i32) -> Option<MessageDefinition> {
    if exists|i: int| 0 <= i < defs.len() && defs[i].id == id {
        Some(defs[choose|i: int| 0 <= i < defs.len() && defs[i].id == id])
    } else {
        None
    }
}

proof fn lemma_find_unique(defs: Seq<MessageDefinition>, i: int)
    requires
        ids_unique(defs),
        0 <= i < defs.len(),
    ensures
        find_id(defs, defs[i].id) == Some(defs[i]),
{
}

/// Whether a definition in `defs` carries `id`.
fn holds_id(defs: &Vec<MessageDefinition>, id: i32) -> (r: bool)
    ensures
        r == exists|m: int| 0 <= m < defs@.len() && defs@[m].id == id,
{
    let mut i: usize = 0;
    while i < defs.len()
        invariant
            0 <= i <= defs@.len(),
            forall|m: int| 0 <= m < i ==> defs@[m].id != id,
        decreases defs@.len() - i,
    {
        if defs[i].id == id {
            return true;
        }
        i = i + 1;
    }
    false
}

/// The definitions that a registry holds, one per identifier.
pub struct ElpisMessages {
    messages: Vec<MessageDefinition>,
}

impl View for ElpisMessages {
    type V = Seq<MessageDefinition>;

    closed spec fn view(&self) -> Seq<MessageDefinition> {
        self.messages@
    }
}

impl ElpisMessages {
    /// No two definitions share an identifier.
    pub open spec fn wf(&self) -> bool {
        ids_unique(self@)
    }

    /// The definition that carries `id`, if any.
    pub open spec fn lookup(&self, id: i32) -> Option<MessageDefinition> {
        find_id(self@, id)
    }

    /// The identifiers that have a definition.
    pub open spec fn ids(&self) -> Set<i32> {
        Set::new(|id: i32| self.lookup(id) is Some)
    }

    /// Builds the registry from a schema's definitions; where two share an
    /// identifier, the later one is kept.
    pub fn from_definitions(definitions: Vec<MessageDefinition>) -> (r: Self)
        ensures
            r.wf(),
            forall|id: i32| r.lookup(id) == last_with_id(definitions@, 0, id),
    {
        let ghost all = definitions@;
        let mut rest = definitions;
        let mut messages: Vec<MessageDefinition> = Vec::new();
        while rest.len() > 0
            invariant
                rest@.len() <= all.len(),
                rest@ == all.subrange(0, rest@.len() as int),
                ids_unique(messages@),
                forall|id: i32| find_id(messages@, id) == last_with_id(all, rest@.len() as int, id),
            decreases rest@.len(),
        {
            let ghost k = rest@.len() - 1;
            let ghost before = messages@;
            assert(forall|id: i32| find_id(before, id) == last_with_id(all, k + 1, id));
            let def = rest.pop().unwrap();
            assert(def == all[k]);
            let found = holds_id(&messages, def.id);
            if !found {
                messages.push(def);
                proof {
                    let last = messages@.len() - 1;
                    assert(messages@[last] == all[k]);
                    assert forall|i: int, j: int|
                        0 <= i < messages@.len() && 0 <= j < messages@.len() && messages@[i].id == messages@[j].id
                        implies i == j by {
                        if i != last && j != last {
                            assert(before[i] == messages@[i] && before[j] == messages@[j]);
                        } else if i != last {
                            assert(before[i] == messages@[i]);
                        } else if j != last {
                            assert(before[j] == messages@[j]);
                        }
                    }
                    assert forall|id: i32| find_id(messages@, id) == last_with_id(all, k, id) by {
                        assert(find_id(before, id) == last_with_id(all, k + 1, id));
                        if id == def.id {
                            lemma_find_unique(messages@, last);
                        } else if exists|i: int| 0 <= i < before.len() && before[i].id == id {
                            let i = choose|i: int| 0 <= i < before.len() && before[i].id == id;
                            lemma_find_unique(before, i);
                            assert(messages@[i] == before[i]);
                            lemma_find_unique(messages@, i);
                        } else {
                            assert forall|i: int| 0 <= i < messages@.len() implies messages@[i].id != id by {
                                if i < last {
                                    assert(messages@[i] == before[i]);
                                }
                            }
                        }
                    }
                }
            } else {
                proof {
                    let m = choose|m: int| 0 <= m < messages@.len() && messages@[m].id == def.id;
                    lemma_find_unique(messages@, m);
                    assert forall|id: i32| find_id(messages@, id) == last_with_id(all, k, id) by {
                        assert(find_id(messages@, id) == last_with_id(all, k + 1, id));
                    }
                }
            }
        }
        ElpisMessages { messages }
    }

    /// The number of definitions held, one per identifier.
    pub fn get_messagedef_count(&self) -> (r: usize)
        requires
            self.wf(),
        ensures
            r == self.ids().len(),
    {
        proof {
            let id_seq = self@.map_values(|d: MessageDefinition| d.id);
            assert(id_seq.no_duplicates());
            assert(self.ids() =~= id_seq.to_set()) by {
                assert forall|id: i32| self.ids().contains(id) implies id_seq.to_set().contains(id) by {
                    let i = choose|i: int| 0 <= i < self@.len() && self@[i].id == id;
                    assert(id_seq[i] == id);
                }
                assert forall|id: i32| id_seq.to_set().contains(id) implies self.ids().contains(id) by {
                    let i = choose|i: int| 0 <= i < id_seq.len() && id_seq[i] == id;
                    assert(self@[i].id == id);
                }
            }
            id_seq.unique_seq_to_set();
        }
        self.messages.len()
    }

    /// The label of a sub-message with identifier `id`: its message's name, or
    /// `unknown` where the registry holds no definition for it.
    pub fn frame_label(&self, id: i32) -> (r: String)
        requires
            self.wf(),
        ensures
            self.lookup(id) matches Some(d) ==> r@ == d.name@,
            self.lookup(id) is None ==> r@ == "unknown"@,
    {
        match self.get_def_by_id(id) {
            Some(d) => d.name.clone(),
            None => "unknown".to_owned(),
        }
    }

    /// The definition that carries `id`, if any.
    pub fn get_def_by_id(&self, id: i32) -> (r: Option<&MessageDefinition>)
        requires
            self.wf(),
        ensures
            match r {
                Some(d) => self.lookup(id) == Some(*d),
                None => self.lookup(id) is None,
            },
    {
        let mut i: usize = 0;
        while i < self.messages.len()
            invariant
                self.wf(),
                0 <= i <= self@.len(),
                forall|m: int| 0 <= m < i ==> self@[m].id != id,
            decreases self@.len() - i,
        {
            if self.messages[i].id == id {
                proof {
                    lemma_find_unique(self@, i as int);
                }
                return Some(&self.messages[i]);
            }
            i = i + 1;
        }
        None
    }
}

} // verus!
