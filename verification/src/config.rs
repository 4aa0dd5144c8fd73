//! The binding registry: which semantic key runs which handler.
//!
//! A handler is an opaque capability owned by the surrounding shell; the
//! core refers to it by a numeric identity and never inspects it. Binding
//! a key that is already bound overwrites the old handler: the last
//! registration for a key wins.

use vstd::prelude::*;

use crate::key::Key;

verus! {

/// The shell-side identity of a bound handler.
pub type Handler = usize;

/// One registered binding: a semantic key and its handler.
pub struct Binding {
    pub key: Key,
    pub handler: Handler,
}

/// Window border appearance, supplied by configuration.
#[derive(Clone, Copy, Debug, PartialEq, Eq, Structural)]
pub struct WindowBorder {
    pub size: u32,
    pub colour: u32,
}

/// The key bindings and static appearance configuration.
pub struct Config {
    pub key_bindings: Vec<Binding>,
    pub border: WindowBorder,
}

impl Config {
    /// No semantic key is bound twice.
    pub open spec fn wf(self) -> bool {
        forall|i: int, j: int|
            0 <= i < j < self.key_bindings@.len()
                ==> !self.key_bindings@[i].key.spec_eq(self.key_bindings@[j].key)
    }

    /// Whether the key with this symbol and modifier mask is bound.
    pub open spec fn has_binding(self, code: Seq<char>, mods: u32) -> bool {
        exists|i: int|
            0 <= i < self.key_bindings@.len() && self.key_bindings@[i].key.code@ == code
                && self.key_bindings@[i].key.mods == mods
    }

    /// The handler bound to this symbol and modifier mask
    /// (arbitrary when the key is unbound).
    pub open spec fn handler_of(self, code: Seq<char>, mods: u32) -> Handler {
        let i = choose|i: int|
            0 <= i < self.key_bindings@.len() && self.key_bindings@[i].key.code@ == code
                && self.key_bindings@[i].key.mods == mods;
        self.key_bindings@[i].handler
    }

    /// A fresh configuration: no bindings, default border.
    pub fn new() -> (r: Config)
        ensures
            r.key_bindings@.len() == 0,
            r.border == (WindowBorder { size: 2, colour: 0x383838 }),
            r.wf(),
    {
        Config {
            key_bindings: Vec::new(),
            border: WindowBorder { size: 2, colour: 0x383838 },
        }
    }

    /// The position of the binding for a key, if the key is bound.
    fn position(&self, key: &Key) -> (r: Option<usize>)
        ensures
            match r {
                Some(i) => i < self.key_bindings@.len() && self.key_bindings@[
                    i as int
                ].key.spec_eq(*key),
                None => forall|k: int|
                    0 <= k < self.key_bindings@.len()
                        ==> !self.key_bindings@[k].key.spec_eq(*key),
            },
    {
        let mut i: usize = 0;
        while i < self.key_bindings.len()
            invariant
                i <= self.key_bindings@.len(),
                forall|k: int| 0 <= k < i ==> !self.key_bindings@[k].key.spec_eq(*key),
            decreases self.key_bindings@.len() - i,
        {
            if self.key_bindings[i].key.same(key) {
                return Some(i);
            }
            i = i + 1;
        }
        None
    }

    /// Binds a key to a handler, overwriting any earlier binding for the
    /// same key; bindings for every other key are untouched.
    pub fn bind_handler(&mut self, key: Key, handler: Handler)
        requires
            old(self).wf(),
        ensures
            final(self).wf(),
            final(self).has_binding(key.code@, key.mods),
            final(self).handler_of(key.code@, key.mods) == handler,
            forall|c: Seq<char>, m: u32|
                #![trigger old(self).has_binding(c, m)]
                #![trigger final(self).has_binding(c, m)]
                !(c == key.code@ && m == key.mods) ==> {
                    &&& final(self).has_binding(c, m) == old(self).has_binding(c, m)
                    &&& (old(self).has_binding(c, m) ==> final(self).handler_of(c, m)
                        == old(self).handler_of(c, m))
                },
            final(self).border == old(self).border,
    {
        let ghost pre = *old(self);
        let ghost kc = key.code@;
        let ghost km = key.mods;
        let pos = self.position(&key);
        match pos {
            Some(i) => {
                self.key_bindings.set(i, Binding { key, handler });
                proof {
                    lemma_rebind_keeps_registry(pre, *self, i as int, kc, km, handler);
                }
            },
            None => {
                self.key_bindings.push(Binding { key, handler });
                proof {
                    lemma_new_binding_keeps_registry(pre, *self, kc, km, handler);
                }
            },
        }
    }

    /// The handler bound to a key, or nothing when the key is unbound.
    pub fn key(&self, key: &Key) -> (r: Option<Handler>)
        requires
            self.wf(),
        ensures
            match r {
                Some(h) => self.has_binding(key.code@, key.mods) && h == self.handler_of(
                    key.code@,
                    key.mods,
                ),
                None => !self.has_binding(key.code@, key.mods),
            },
    {
        let mut i: usize = 0;
        while i < self.key_bindings.len()
            invariant
                self.wf(),
                i <= self.key_bindings@.len(),
                forall|k: int| 0 <= k < i ==> !self.key_bindings@[k].key.spec_eq(*key),
            decreases self.key_bindings@.len() - i,
        {
            if self.key_bindings[i].key.same(key) {
                proof {
                    assert(self.has_binding(key.code@, key.mods));
                    let w = choose|w: int|
                        0 <= w < self.key_bindings@.len() && self.key_bindings@[w].key.code@
                            == key.code@ && self.key_bindings@[w].key.mods == key.mods;
                    lemma_binding_unique(*self, w, i as int);
                }
                return Some(self.key_bindings[i].handler);
            }
            i = i + 1;
        }
        None
    }
}

/// In a well-formed registry, two positions that carry the same symbol and
/// modifier mask are one and the same.
proof fn lemma_binding_unique(cfg: Config, i: int, j: int)
    requires
        cfg.wf(),
        0 <= i < cfg.key_bindings@.len(),
        0 <= j < cfg.key_bindings@.len(),
        cfg.key_bindings@[i].key.code@ == cfg.key_bindings@[j].key.code@,
        cfg.key_bindings@[i].key.mods == cfg.key_bindings@[j].key.mods,
    ensures
        i == j,
{
    if i < j {
        assert(!cfg.key_bindings@[i].key.spec_eq(cfg.key_bindings@[j].key));
        assert(cfg.key_bindings@[i].key.spec_eq(cfg.key_bindings@[j].key));
    } else if j < i {
        assert(!cfg.key_bindings@[j].key.spec_eq(cfg.key_bindings@[i].key));
        assert(cfg.key_bindings@[j].key.spec_eq(cfg.key_bindings@[i].key));
    }
}

/// Overwriting the binding at position `i` with a new handler for the same
/// key leaves every other key's binding as it was.
proof fn lemma_rebind_keeps_registry(
    pre: Config,
    post: Config,
    i: int,
    c0: Seq<char>,
    m0: u32,
    handler: Handler,
)
    requires
        pre.wf(),
        0 <= i < pre.key_bindings@.len(),
        pre.key_bindings@[i].key.code@ == c0,
        pre.key_bindings@[i].key.mods == m0,
        post.key_bindings@.len() == pre.key_bindings@.len(),
        post.key_bindings@[i].key.code@ == c0,
        post.key_bindings@[i].key.mods == m0,
        post.key_bindings@[i].handler == handler,
        forall|k: int|
            0 <= k < pre.key_bindings@.len() && k != i ==> post.key_bindings@[k]
                == pre.key_bindings@[k],
    ensures
        post.wf(),
        post.has_binding(c0, m0),
        post.handler_of(c0, m0) == handler,
        forall|c: Seq<char>, m: u32|
            #![trigger pre.has_binding(c, m)]
            #![trigger post.has_binding(c, m)]
            !(c == c0 && m == m0) ==> {
                &&& post.has_binding(c, m) == pre.has_binding(c, m)
                &&& (pre.has_binding(c, m) ==> post.handler_of(c, m) == pre.handler_of(c, m))
            },
{
    let bs = post.key_bindings@;
    let os = pre.key_bindings@;
    assert forall|p: int, q: int| 0 <= p < q < bs.len() implies !bs[p].key.spec_eq(
        bs[q].key,
    ) by {
        assert(!os[p].key.spec_eq(os[q].key));
    }
    assert(post.has_binding(c0, m0));
    assert forall|p: int|
        0 <= p < bs.len() && bs[p].key.code@ == c0 && bs[p].key.mods == m0 implies p == i by {
        lemma_binding_unique(post, p, i);
    }
    assert forall|c: Seq<char>, m: u32| !(c == c0 && m == m0) implies {
        &&& post.has_binding(c, m) == pre.has_binding(c, m)
        &&& (pre.has_binding(c, m) ==> post.handler_of(c, m) == pre.handler_of(c, m))
    } by {
        if pre.has_binding(c, m) {
            let k = choose|k: int| 0 <= k < os.len() && os[k].key.code@ == c && os[k].key.mods == m;
            assert(k != i);
            assert(bs[k].key.code@ == c && bs[k].key.mods == m);
            assert(post.has_binding(c, m));
            assert forall|p: int|
                0 <= p < bs.len() && bs[p].key.code@ == c && bs[p].key.mods == m implies p
                == k by {
                lemma_binding_unique(post, p, k);
            }
            assert forall|p: int|
                0 <= p < os.len() && os[p].key.code@ == c && os[p].key.mods == m implies p
                == k by {
                lemma_binding_unique(pre, p, k);
            }
            assert(post.handler_of(c, m) == bs[k].handler);
            assert(pre.handler_of(c, m) == os[k].handler);
        }
        if post.has_binding(c, m) {
            let k = choose|k: int| 0 <= k < bs.len() && bs[k].key.code@ == c && bs[k].key.mods == m;
            assert(k != i);
            assert(os[k].key.code@ == c && os[k].key.mods == m);
            assert(pre.has_binding(c, m));
        }
    }
}

/// Appending a binding for a key that was unbound leaves every other key's
/// binding as it was.
proof fn lemma_new_binding_keeps_registry(
    pre: Config,
    post: Config,
    c0: Seq<char>,
    m0: u32,
    handler: Handler,
)
    requires
        pre.wf(),
        forall|k: int|
            0 <= k < pre.key_bindings@.len()
                ==> !(pre.key_bindings@[k].key.code@ == c0 && pre.key_bindings@[k].key.mods
                == m0),
        post.key_bindings@.len() == pre.key_bindings@.len() + 1,
        post.key_bindings@[pre.key_bindings@.len() as int].key.code@ == c0,
        post.key_bindings@[pre.key_bindings@.len() as int].key.mods == m0,
        post.key_bindings@[pre.key_bindings@.len() as int].handler == handler,
        forall|k: int|
            0 <= k < pre.key_bindings@.len() ==> post.key_bindings@[k] == pre.key_bindings@[k],
    ensures
        post.wf(),
        post.has_binding(c0, m0),
        post.handler_of(c0, m0) == handler,
        forall|c: Seq<char>, m: u32|
            #![trigger pre.has_binding(c, m)]
            #![trigger post.has_binding(c, m)]
            !(c == c0 && m == m0) ==> {
                &&& post.has_binding(c, m) == pre.has_binding(c, m)
                &&& (pre.has_binding(c, m) ==> post.handler_of(c, m) == pre.handler_of(c, m))
            },
{
    let bs = post.key_bindings@;
    let os = pre.key_bindings@;
    let n = os.len() as int;
    assert forall|p: int, q: int| 0 <= p < q < bs.len() implies !bs[p].key.spec_eq(
        bs[q].key,
    ) by {
        if q < n {
            assert(!os[p].key.spec_eq(os[q].key));
        }
    }
    assert(post.has_binding(c0, m0));
    assert forall|p: int|
        0 <= p < bs.len() && bs[p].key.code@ == c0 && bs[p].key.mods == m0 implies p == n by {
        lemma_binding_unique(post, p, n);
    }
    assert forall|c: Seq<char>, m: u32| !(c == c0 && m == m0) implies {
        &&& post.has_binding(c, m) == pre.has_binding(c, m)
        &&& (pre.has_binding(c, m) ==> post.handler_of(c, m) == pre.handler_of(c, m))
    } by {
        if pre.has_binding(c, m) {
            let k = choose|k: int| 0 <= k < os.len() && os[k].key.code@ == c && os[k].key.mods == m;
            assert(bs[k].key.code@ == c && bs[k].key.mods == m);
            assert(post.has_binding(c, m));
            assert forall|p: int|
                0 <= p < bs.len() && bs[p].key.code@ == c && bs[p].key.mods == m implies p
                == k by {
                lemma_binding_unique(post, p, k);
            }
            assert forall|p: int|
                0 <= p < os.len() && os[p].key.code@ == c && os[p].key.mods == m implies p
                == k by {
                lemma_binding_unique(pre, p, k);
            }
            assert(post.handler_of(c, m) == bs[k].handler);
            assert(pre.handler_of(c, m) == os[k].handler);
        }
        if post.has_binding(c, m) {
            let k = choose|k: int| 0 <= k < bs.len() && bs[k].key.code@ == c && bs[k].key.mods == m;
            assert(k != n);
            assert(os[k].key.code@ == c && os[k].key.mods == m);
            assert(pre.has_binding(c, m));
        }
    }
}

} // verus!
