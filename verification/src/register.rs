//! Named registers of yanked text. Each register holds a list of values,
//! newest at the front. The register `'_'` is a black hole: what is written
//! to it is dropped.

use vstd::prelude::*;

verus! {

/// The values held under `name` in `rs`: those of its first entry.
pub open spec fn lookup(rs: Seq<(char, Vec<String>)>, name: char) -> Option<Seq<String>>
    decreases rs.len(),
{
    if rs.len() == 0 {
        None
    } else if rs[0].0 == name {
        Some(rs[0].1@)
    } else {
        lookup(rs.drop_first(), name)
    }
}

/// Index of the first entry of `name` in `rs` (its length where there is none).
pub open spec fn entry_index(rs: Seq<(char, Vec<String>)>, name: char) -> int
    decreases rs.len(),
{
    if rs.len() == 0 {
        0
    } else if rs[0].0 == name {
        0
    } else {
        1 + entry_index(rs.drop_first(), name)
    }
}

proof fn lemma_entry_index(rs: Seq<(char, Vec<String>)>, name: char)
    ensures
        0 <= entry_index(rs, name) <= rs.len(),
        entry_index(rs, name) < rs.len() ==> rs[entry_index(rs, name)].0 == name
            && lookup(rs, name) == Some(rs[entry_index(rs, name)].1@),
        entry_index(rs, name) == rs.len() ==> lookup(rs, name).is_none(),
        forall|j: int| 0 <= j < entry_index(rs, name) ==> rs[j].0 != name,
    decreases rs.len(),
{
    if rs.len() > 0 && rs[0].0 != name {
        lemma_entry_index(rs.drop_first(), name);
        assert forall|j: int| 0 <= j < entry_index(rs, name) implies rs[j].0 != name by {
            if j > 0 {
                assert(rs[j] == rs.drop_first()[j - 1]);
            }
        }
    }
}

/// Replacing the values of the first entry of `name` changes what `name`
/// holds and nothing else.
proof fn lemma_lookup_update(rs: Seq<(char, Vec<String>)>, name: char, values: Vec<String>, c: char)
    requires
        entry_index(rs, name) < rs.len(),
    ensures
        lookup(rs.update(entry_index(rs, name), (name, values)), c) == if c == name {
            Some(values@)
        } else {
            lookup(rs, c)
        },
    decreases rs.len(),
{
    lemma_entry_index(rs, name);
    let i = entry_index(rs, name);
    let u = rs.update(i, (name, values));
    if i > 0 {
        lemma_lookup_update(rs.drop_first(), name, values, c);
        assert(u.drop_first() =~= rs.drop_first().update(i - 1, (name, values)));
        assert(u[0] == rs[0]);
    } else {
        assert(u.drop_first() =~= rs.drop_first());
    }
}

/// Appending an entry for a name that has none adds it and changes nothing else.
proof fn lemma_lookup_push(rs: Seq<(char, Vec<String>)>, name: char, values: Vec<String>, c: char)
    requires
        lookup(rs, name).is_none(),
    ensures
        lookup(rs.push((name, values)), c) == if c == name {
            Some(values@)
        } else {
            lookup(rs, c)
        },
    decreases rs.len(),
{
    let p = rs.push((name, values));
    if rs.len() > 0 {
        assert(rs[0].0 != name);
        lemma_lookup_push(rs.drop_first(), name, values, c);
        assert(p.drop_first() =~= rs.drop_first().push((name, values)));
        assert(p[0] == rs[0]);
        if c == rs[0].0 {
            assert(lookup(p, c) == Some(rs[0].1@));
        } else {
            assert(lookup(p, c) == lookup(p.drop_first(), c));
            assert(lookup(rs, c) == lookup(rs.drop_first(), c));
        }
    } else {
        assert(p.drop_first() =~= Seq::<(char, Vec<String>)>::empty());
    }
}

/// The registers, by name.
pub struct Registers {
    registers: Vec<(char, Vec<String>)>,
}

impl Registers {
    /// The values held in register `name`, newest first, if it was written.
    pub closed spec fn register(&self, name: char) -> Option<Seq<String>> {
        lookup(self.registers@, name)
    }

    /// The entries, one per register, in the order they were created.
    pub closed spec fn entries(&self) -> Seq<(char, Vec<String>)> {
        self.registers@
    }

    /// The values in register `name`, newest first.
    pub fn get(&self, name: char) -> (r: Option<&Vec<String>>)
        ensures
            match r {
                Some(v) => self.register(name) == Some(v@),
                None => self.register(name).is_none(),
            },
    {
        proof {
            lemma_entry_index(self.registers@, name);
        }
        let i = self.find(name);
        if i < self.registers.len() {
            Some(&self.registers[i].1)
        } else {
            None
        }
    }

    /// Index of the first entry of `name`.
    fn find(&self, name: char) -> (i: usize)
        ensures
            i == entry_index(self.registers@, name),
    {
        proof {
            lemma_entry_index(self.registers@, name);
        }
        let mut i: usize = 0;
        while i < self.registers.len()
            invariant
                0 <= i <= self.registers@.len(),
                forall|j: int| 0 <= j < i ==> self.registers@[j].0 != name,
                0 <= entry_index(self.registers@, name) <= self.registers@.len(),
                entry_index(self.registers@, name) < self.registers@.len() ==> self.registers@[entry_index(
                    self.registers@,
                    name,
                )].0 == name,
                forall|j: int| 0 <= j < entry_index(self.registers@, name) ==> self.registers@[j].0 != name,
            decreases self.registers.len() - i,
        {
            if self.registers[i].0 == name {
                return i;
            }
            i = i + 1;
        }
        i
    }

    /// Puts `values` in register `name` in place of what it held; writing to
    /// `'_'` does nothing.
    pub fn write(&mut self, name: char, values: Vec<String>)
        ensures
            forall|c: char|
                #![trigger final(self).register(c)]
                final(self).register(c) == if c == name && name != '_' {
                    Some(values@)
                } else {
                    old(self).register(c)
                },
    {
        if name != '_' {
            let ghost rs = self.registers@;
            let i = self.find(name);
            proof {
                lemma_entry_index(rs, name);
            }
            if i < self.registers.len() {
                self.registers.set(i, (name, values));
                proof {
                    assert forall|c: char| #[trigger] lookup(self.registers@, c) == if c == name {
                        Some(values@)
                    } else {
                        lookup(rs, c)
                    } by {
                        lemma_lookup_update(rs, name, values, c);
                    }
                }
            } else {
                self.registers.push((name, values));
                proof {
                    assert forall|c: char| #[trigger] lookup(self.registers@, c) == if c == name {
                        Some(values@)
                    } else {
                        lookup(rs, c)
                    } by {
                        lemma_lookup_push(rs, name, values, c);
                    }
                }
            }
        }
    }

    /// Puts `value` at the front of register `name`; pushing to `'_'` does nothing.
    pub fn push(&mut self, name: char, value: String)
        ensures
            forall|c: char|
                #![trigger final(self).register(c)]
                final(self).register(c) == if c == name && name != '_' {
                    Some(
                        seq![value] + match old(self).register(name) {
                            Some(vs) => vs,
                            None => Seq::<String>::empty(),
                        },
                    )
                } else {
                    old(self).register(c)
                },
    {
        if name != '_' {
            let ghost rs = self.registers@;
            let i = self.find(name);
            proof {
                lemma_entry_index(rs, name);
            }
            if i < self.registers.len() {
                let mut values: Vec<String> = Vec::new();
                std::mem::swap(&mut values, &mut self.registers[i].1);
                let ghost old_values = values@;
                values.insert(0, value);
                proof {
                    assert(values@ =~= seq![value] + old_values);
                }
                self.registers.set(i, (name, values));
                proof {
                    assert(self.registers@ =~= rs.update(i as int, (name, values)));
                    assert forall|c: char| #[trigger] lookup(self.registers@, c) == if c == name {
                        Some(values@)
                    } else {
                        lookup(rs, c)
                    } by {
                        lemma_lookup_update(rs, name, values, c);
                    }
                }
            } else {
                let mut temp_list: Vec<String> = Vec::new();
                temp_list.insert(0, value);
                self.write(name, temp_list);
                proof {
                    assert(temp_list@ =~= seq![value] + Seq::<String>::empty());
                }
            }
        }
    }

    /// The oldest value in register `name`.
    pub fn first(&self, name: char) -> (r: Option<&String>)
        ensures
            match r {
                Some(s) => self.register(name) matches Some(vs) && vs.len() > 0 && *s == vs.last(),
                None => self.register(name) matches None || self.register(name).unwrap().len() == 0,
            },
    {
        match self.get(name) {
            Some(register) => {
                let n = register.len();
                if n > 0 {
                    Some(&register[n - 1])
                } else {
                    None
                }
            },
            None => None,
        }
    }

    /// The newest value in register `name`.
    pub fn last(&self, name: char) -> (r: Option<&String>)
        ensures
            match r {
                Some(s) => self.register(name) matches Some(vs) && vs.len() > 0 && *s == vs[0],
                None => self.register(name) matches None || self.register(name).unwrap().len() == 0,
            },
    {
        match self.get(name) {
            Some(register) => {
                if register.len() > 0 {
                    Some(&register[0])
                } else {
                    None
                }
            },
            None => None,
        }
    }

    /// Every register with its values, one entry per register.
    pub fn get_all(&self) -> (r: &Vec<(char, Vec<String>)>)
        ensures
            r@ == self.entries(),
            forall|c: char| #[trigger] lookup(r@, c) == self.register(c),
    {
        &self.registers
    }
}

impl Default for Registers {
    /// No register holds anything.
    fn default() -> (r: Registers)
        ensures
            forall|c: char| r.register(c).is_none(),
    {
        Registers { registers: Vec::new() }
    }
}

} // verus!
