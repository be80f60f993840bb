use vstd::prelude::*;

use crate::error::Error;
use crate::node::{Node, NodeValue};

verus! {

/// A scope: name to node bindings, with an optional enclosing scope.
#[derive(Debug)]
pub struct Environment {
    pub parent: Option<Box<Environment>>,
    pub bind: Vec<(String, Node)>,
}

/// The key that a node gives, when it is a symbol.
pub open spec fn symbol_key(id: Node) -> Option<Seq<char>> {
    match id.value {
        Some(NodeValue::Symbol(s)) => Some(s@),
        _ => None,
    }
}

/// The node bound to `key` in a list of bindings, searching from position `i` on.
pub open spec fn find_from(bind: Seq<(String, Node)>, key: Seq<char>, i: int) -> Option<Node>
    decreases bind.len() - i,
{
    if i < 0 || i >= bind.len() {
        None
    } else if bind[i].0@ == key {
        Some(bind[i].1)
    } else {
        find_from(bind, key, i + 1)
    }
}

/// No key is bound twice within one scope.
pub open spec fn keys_unique(bind: Seq<(String, Node)>) -> bool {
    forall|i: int, j: int|
        0 <= i < j < bind.len() ==> #[trigger] bind[i].0@ != #[trigger] bind[j].0@
}

/// The node bound to `key` in this scope alone.
pub open spec fn local_lookup(env: Environment, key: Seq<char>) -> Option<Node> {
    find_from(env.bind@, key, 0)
}

/// The node bound to `key` in this scope, or else in the nearest enclosing scope that binds it.
pub open spec fn lookup(env: Environment, key: Seq<char>) -> Option<Node>
    decreases env,
{
    match local_lookup(env, key) {
        Some(n) => Some(n),
        None => match env.parent {
            Some(p) => lookup(*p, key),
            None => None,
        },
    }
}

proof fn lemma_find_from_update(
    bind: Seq<(String, Node)>,
    j: int,
    entry: (String, Node),
    key: Seq<char>,
    i: int,
)
    requires
        0 <= i <= j < bind.len(),
        bind[j].0@ == entry.0@,
        forall|k: int| i <= k < j ==> #[trigger] bind[k].0@ != entry.0@,
    ensures
        find_from(bind.update(j, entry), key, i) == if key == entry.0@ {
            Some(entry.1)
        } else {
            find_from(bind, key, i)
        },
    decreases j - i,
{
    let u = bind.update(j, entry);
    if i < j {
        assert(u[i] == bind[i]);
        lemma_find_from_update(bind, j, entry, key, i + 1);
    } else {
        assert(u[j] == entry);
        lemma_find_from_agree(u, bind, key, j + 1);
    }
}

proof fn lemma_find_from_agree(s1: Seq<(String, Node)>, s2: Seq<(String, Node)>, key: Seq<char>, i: int)
    requires
        0 <= i,
        s1.len() == s2.len(),
        forall|k: int| i <= k < s1.len() ==> #[trigger] s1[k] == s2[k],
    ensures
        find_from(s1, key, i) == find_from(s2, key, i),
    decreases s1.len() - i,
{
    if i < s1.len() {
        lemma_find_from_agree(s1, s2, key, i + 1);
    }
}

proof fn lemma_find_from_push(bind: Seq<(String, Node)>, entry: (String, Node), key: Seq<char>, i: int)
    requires
        0 <= i <= bind.len(),
        forall|k: int| i <= k < bind.len() ==> #[trigger] bind[k].0@ != entry.0@,
    ensures
        find_from(bind.push(entry), key, i) == if key == entry.0@ {
            Some(entry.1)
        } else {
            find_from(bind, key, i)
        },
    decreases bind.len() - i,
{
    let p = bind.push(entry);
    if i < bind.len() {
        assert(p[i] == bind[i]);
        lemma_find_from_push(bind, entry, key, i + 1);
    } else {
        assert(p[i] == entry);
        assert(find_from(p, key, i + 1) is None);
    }
}

impl Environment {
    pub fn new(parent: Option<Box<Environment>>) -> (r: Environment)
        ensures
            r.parent == parent,
            r.bind@.len() == 0,
            keys_unique(r.bind@),
            forall|k: Seq<char>| #[trigger] local_lookup(r, k) is None,
    {
        Environment { parent, bind: Vec::new() }
    }

    /// Binds the symbol `id` to `value` in this scope, replacing an earlier binding of it;
    /// enclosing scopes are untouched. A key that is not a symbol is refused.
    pub fn set(&mut self, id: &Node, value: Node) -> (r: Result<(), Error>)
        ensures
            symbol_key(*id) is None ==> r is Err && r->Err_0@ is InvalidKeyType && *final(self)
                == *old(self),
            symbol_key(*id) matches Some(key) ==> {
                &&& r is Ok
                &&& final(self).parent == old(self).parent
                &&& keys_unique(old(self).bind@) ==> keys_unique(final(self).bind@)
                &&& forall|k: Seq<char>| #[trigger]
                    local_lookup(*final(self), k) == if k == key {
                        Some(value)
                    } else {
                        local_lookup(*old(self), k)
                    }
            },
    {
        let key = match &id.value {
            Some(NodeValue::Symbol(s)) => s,
            _ => {
                return Err(Error::InvalidKeyType);
            },
        };
        let ghost b = self.bind@;
        let mut i: usize = 0;
        while i < self.bind.len()
            invariant
                self.bind@ == b,
                *self == *old(self),
                i <= b.len(),
                symbol_key(*id) == Some(key@),
                forall|k: int| 0 <= k < i ==> #[trigger] b[k].0@ != key@,
            decreases b.len() - i,
        {
            if self.bind[i].0.eq(key) {
                let entry = (key.clone(), value);
                proof {
                    assert forall|k: Seq<char>| #[trigger]
                        find_from(b.update(i as int, entry), k, 0) == if k == key@ {
                            Some(value)
                        } else {
                            find_from(b, k, 0)
                        } by {
                        lemma_find_from_update(b, i as int, entry, k, 0);
                    }
                }
                self.bind[i] = entry;
                assert(keys_unique(b) ==> keys_unique(self.bind@)) by {
                    assert forall|x: int, y: int|
                        0 <= x < y < self.bind@.len() && keys_unique(b) implies #[trigger] self.bind@[x].0@
                            != #[trigger] self.bind@[y].0@ by {
                        assert(b[x].0@ != b[y].0@);
                    }
                }
                return Ok(());
            }
            i = i + 1;
        }
        let entry = (key.clone(), value);
        proof {
            assert forall|k: Seq<char>| #[trigger]
                find_from(b.push(entry), k, 0) == if k == key@ {
                    Some(value)
                } else {
                    find_from(b, k, 0)
                } by {
                lemma_find_from_push(b, entry, k, 0);
            }
        }
        self.bind.push(entry);
        assert(keys_unique(b) ==> keys_unique(self.bind@)) by {
            assert forall|x: int, y: int|
                0 <= x < y < self.bind@.len() && keys_unique(b) implies #[trigger] self.bind@[x].0@
                    != #[trigger] self.bind@[y].0@ by {
                if y < b.len() {
                    assert(b[x].0@ != b[y].0@);
                } else {
                    assert(b[x].0@ != key@);
                }
            }
        }
        Ok(())
    }

    /// The node bound to the symbol `id`, looked up in this scope and then outward through
    /// the enclosing ones; nothing for a key that is not a symbol.
    pub fn get(&self, id: &Node) -> (r: Option<&Node>)
        ensures
            match symbol_key(*id) {
                None => r is None,
                Some(key) => match lookup(*self, key) {
                    None => r is None,
                    Some(n) => r matches Some(m) && *m == n,
                },
            },
        decreases self,
    {
        let key = match &id.value {
            Some(NodeValue::Symbol(s)) => s,
            _ => {
                return None;
            },
        };
        let mut i: usize = 0;
        while i < self.bind.len()
            invariant
                i <= self.bind@.len(),
                symbol_key(*id) == Some(key@),
                local_lookup(*self, key@) == find_from(self.bind@, key@, i as int),
            decreases self.bind@.len() - i,
        {
            if self.bind[i].0.eq(key) {
                return Some(&self.bind[i].1);
            }
            i = i + 1;
        }
        match &self.parent {
            Some(p) => p.get(id),
            None => None,
        }
    }
}

} // verus!
