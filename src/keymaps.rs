use vstd::prelude::*;

use crate::key::{parse_key, parse_key_spec, Key};
use crate::token::{Token, TokenView};

verus! {

/// A node of the action trie: edges labelled by keys, and the action bound to
/// the key sequence that leads here, if any.
///
/// No two edges of a node carry the same key (`wf`), which every insertion
/// keeps; lookups take the first edge with a key.
pub struct ActionNode {
    pub children: Vec<(Key, ActionNode)>,
    pub action: Option<Token>,
}

/// `i` is the first edge of `cs` labelled `k`.
pub open spec fn is_first(cs: Seq<(Key, ActionNode)>, k: Key, i: int) -> bool {
    0 <= i < cs.len() && cs[i].0 == k && forall|j: int| 0 <= j < i ==> cs[j].0 != k
}

/// `p` is a prefix of `s`.
pub open spec fn is_prefix(p: Seq<Key>, s: Seq<Key>) -> bool {
    p.len() <= s.len() && s.subrange(0, p.len() as int) == p
}

/// Result of advancing a trie cursor by one key.
pub enum Advance {
    /// The key leads to a node that has an action.
    Matched,
    /// The key leads to a node without an action: a longer sequence is in progress.
    Continuing,
    /// No edge carries the key.
    Dead,
}

impl ActionNode {
    /// The node that the edge labelled `k` leads to.
    pub open spec fn child(self, k: Key) -> Option<ActionNode> {
        if exists|i: int| is_first(self.children@, k, i) {
            Some(self.children@[choose|i: int| is_first(self.children@, k, i)].1)
        } else {
            None
        }
    }

    /// The node that the key sequence `p` leads to from here.
    pub open spec fn node_at(self, p: Seq<Key>) -> Option<ActionNode>
        decreases p.len(),
    {
        if p.len() == 0 {
            Some(self)
        } else {
            match self.child(p[0]) {
                Some(c) => c.node_at(p.drop_first()),
                None => None,
            }
        }
    }

    /// The action bound to the key sequence `p`.
    pub open spec fn action_at(self, p: Seq<Key>) -> Option<Token> {
        match self.node_at(p) {
            Some(n) => n.action,
            None => None,
        }
    }

    /// What advancing a cursor that stands here by the key `k` gives.
    pub open spec fn advance_spec(self, k: Key) -> Advance {
        match self.child(k) {
            None => Advance::Dead,
            Some(c) => if c.action is Some {
                Advance::Matched
            } else {
                Advance::Continuing
            },
        }
    }

    /// No two edges of a node carry the same key, at every node of the trie.
    pub open spec fn wf(self) -> bool
        decreases self,
    {
        &&& forall|i: int, j: int|
            0 <= i < j < self.children@.len() ==> (#[trigger] self.children@[i]).0 != (
            #[trigger] self.children@[j]).0
        &&& forall|i: int|
            0 <= i < self.children@.len() ==> (#[trigger] self.children@[i]).1.wf()
    }

    /// An empty node: no edges, no action.
    pub fn new() -> (r: ActionNode)
        ensures
            r.children@.len() == 0,
            r.action is None,
            r.wf(),
    {
        ActionNode { children: Vec::new(), action: None }
    }

    /// The first edge labelled `k`.
    pub fn find_edge(&self, k: &Key) -> (r: Option<usize>)
        ensures
            match r {
                Some(i) => is_first(self.children@, *k, i as int),
                None => forall|j: int| 0 <= j < self.children@.len() ==> self.children@[j].0 != *k,
            },
    {
        let mut i: usize = 0;
        while i < self.children.len()
            invariant
                i <= self.children@.len(),
                forall|j: int| 0 <= j < i ==> self.children@[j].0 != *k,
            decreases self.children@.len() - i,
        {
            if self.children[i].0 == *k {
                return Some(i);
            }
            i = i + 1;
        }
        None
    }

    /// The node that the edge labelled `k` leads to.
    pub fn step(&self, k: &Key) -> (r: Option<&ActionNode>)
        ensures
            match r {
                Some(c) => self.child(*k) == Some(*c),
                None => self.child(*k) is None,
            },
    {
        match self.find_edge(k) {
            Some(i) => {
                proof {
                    lemma_first_unique(self.children@, *k, i as int);
                }
                Some(&self.children[i].1)
            },
            None => None,
        }
    }

    /// Advances a cursor that stands here by one key.
    pub fn advance(&self, k: &Key) -> (r: Advance)
        ensures
            r == self.advance_spec(*k),
    {
        match self.step(k) {
            None => Advance::Dead,
            Some(c) => if c.action.is_some() {
                Advance::Matched
            } else {
                Advance::Continuing
            },
        }
    }

    /// The node that the key sequence `p` leads to.
    pub fn walk(&self, p: &[Key]) -> (r: Option<&ActionNode>)
        ensures
            match r {
                Some(n) => self.node_at(p@) == Some(*n),
                None => self.node_at(p@) is None,
            },
    {
        let mut cur: &ActionNode = self;
        let mut i: usize = 0;
        assert(p@.subrange(0, p@.len() as int) == p@);
        while i < p.len()
            invariant
                i <= p@.len(),
                self.node_at(p@) == cur.node_at(p@.subrange(i as int, p@.len() as int)),
            decreases p@.len() - i,
        {
            let ghost rest = p@.subrange(i as int, p@.len() as int);
            assert(rest.drop_first() == p@.subrange(i + 1, p@.len() as int));
            match cur.step(&p[i]) {
                Some(c) => {
                    cur = c;
                },
                None => {
                    return None;
                },
            }
            i = i + 1;
        }
        assert(p@.subrange(i as int, p@.len() as int) == Seq::<Key>::empty());
        Some(cur)
    }

    /// Binds `action` to the key sequence `keys[i..]`, creating the nodes on the way.
    fn insert_from(&mut self, keys: &[Key], i: usize, action: Token)
        requires
            i < keys@.len(),
        ensures
            inserted(*old(self), *final(self), keys@.subrange(i as int, keys@.len() as int), action),
            old(self).wf() ==> final(self).wf(),
        decreases keys@.len() - i,
    {
        let ghost rest = keys@.subrange(i as int, keys@.len() as int);
        let ghost old_node = *self;
        let k = keys[i];
        let last = i + 1 == keys.len();
        match self.find_edge(&k) {
            Some(idx) => {
                proof {
                    lemma_first_unique(self.children@, k, idx as int);
                }
                let ghost old_child = self.children@[idx as int].1;
                let entry = &mut self.children[idx];
                if last {
                    entry.1.action = Some(action);
                } else {
                    entry.1.insert_from(keys, i + 1, action);
                }
                proof {
                    let new_child = self.children@[idx as int].1;
                    assert(self.children@ == old_node.children@.update(
                        idx as int,
                        (k, new_child),
                    ));
                    if last {
                        assert(rest.drop_first() == Seq::<Key>::empty());
                        lemma_set_action(old_child, new_child, action);
                    } else {
                        assert(keys@.subrange(i + 1, keys@.len() as int) == rest.drop_first());
                    }
                    lemma_update_edge(old_node, *self, idx as int, k, rest, action);
                    if old_node.wf() {
                        assert(old_child.wf());
                        assert(new_child.wf());
                        assert forall|x: int, y: int|
                            0 <= x < y < self.children@.len() implies (#[trigger] self.children@[x]).0
                            != (#[trigger] self.children@[y]).0 by {
                            assert(old_node.children@[x].0 == self.children@[x].0);
                            assert(old_node.children@[y].0 == self.children@[y].0);
                        }
                        assert forall|x: int| 0 <= x < self.children@.len() implies (
                        #[trigger] self.children@[x]).1.wf() by {
                            if x != idx {
                                assert(self.children@[x] == old_node.children@[x]);
                            }
                        }
                    }
                }
            },
            None => {
                let mut child = ActionNode::new();
                let ghost empty = child;
                if last {
                    child.action = Some(action);
                } else {
                    child.insert_from(keys, i + 1, action);
                }
                proof {
                    if last {
                        assert(rest.drop_first() == Seq::<Key>::empty());
                        lemma_set_action(empty, child, action);
                    } else {
                        assert(keys@.subrange(i + 1, keys@.len() as int) == rest.drop_first());
                    }
                }
                self.children.push((k, child));
                proof {
                    assert(self.children@.drop_last() =~= old_node.children@);
                    lemma_push_edge(old_node, *self, empty, k, rest, action);
                    if old_node.wf() {
                        let n = old_node.children@.len() as int;
                        assert(child.wf());
                        assert forall|x: int|
                            0 <= x < self.children@.len() implies #[trigger] self.children@[x]
                            == if x < n {
                            old_node.children@[x]
                        } else {
                            (k, child)
                        } by {
                            if x < n {
                                assert(self.children@.drop_last()[x] == self.children@[x]);
                            }
                        }
                        assert forall|x: int, y: int|
                            0 <= x < y < self.children@.len() implies (#[trigger] self.children@[x]).0
                            != (#[trigger] self.children@[y]).0 by {
                            if y < n {
                                assert(old_node.children@[x].0 != old_node.children@[y].0);
                            }
                        }
                        assert forall|x: int| 0 <= x < self.children@.len() implies (
                        #[trigger] self.children@[x]).1.wf() by {
                            if x < n {
                                assert(old_node.children@[x].1.wf());
                            }
                        }
                    }
                }
            },
        }
    }

    /// Binds `action` to the key sequence `keys`; a binding already there is
    /// replaced. An empty sequence binds nothing.
    pub fn insert(&mut self, keys: &[Key], action: Token)
        ensures
            keys@.len() == 0 ==> *final(self) == *old(self),
            keys@.len() > 0 ==> inserted(*old(self), *final(self), keys@, action),
            old(self).wf() ==> final(self).wf(),
    {
        if keys.len() > 0 {
            self.insert_from(keys, 0, action);
            assert(keys@.subrange(0, keys@.len() as int) == keys@);
        }
    }
}

/// `new` is `old` with `action` bound to the sequence `s`: the nodes on the
/// way to `s` exist, every other sequence reaches a node exactly where it did
/// before, and every other binding is kept.
pub open spec fn inserted(old: ActionNode, new: ActionNode, s: Seq<Key>, action: Token) -> bool {
    &&& forall|p: Seq<Key>| #[trigger]
        new.node_at(p) is Some <==> (old.node_at(p) is Some || is_prefix(p, s))
    &&& forall|p: Seq<Key>| #[trigger]
        new.action_at(p) == if p == s {
            Some(action)
        } else {
            old.action_at(p)
        }
}

proof fn lemma_first_unique(cs: Seq<(Key, ActionNode)>, k: Key, i: int)
    requires
        is_first(cs, k, i),
    ensures
        forall|j: int| is_first(cs, k, j) ==> j == i,
{
    assert forall|j: int| is_first(cs, k, j) implies j == i by {
        if j < i {
            assert(cs[j].0 != k);
        } else if j > i {
            assert(cs[i].0 != k);
        }
    }
}

/// Setting the action of a node binds the empty sequence there.
proof fn lemma_set_action(old: ActionNode, new: ActionNode, action: Token)
    requires
        old.children@ == new.children@,
        new.action == Some(action),
    ensures
        inserted(old, new, Seq::<Key>::empty(), action),
{
    lemma_same_edges_same_paths(old, new);
    assert forall|p: Seq<Key>| #[trigger]
        new.node_at(p) is Some <==> (old.node_at(p) is Some || is_prefix(p, Seq::<Key>::empty())) by {
        if p.len() > 0 {
            assert(new.node_at(p) == old.node_at(p));
        }
    }
    assert forall|p: Seq<Key>| #[trigger]
        new.action_at(p) == if p == Seq::<Key>::empty() {
            Some(action)
        } else {
            old.action_at(p)
        } by {
        if p.len() > 0 {
            assert(new.node_at(p) == old.node_at(p));
        } else {
            assert(p == Seq::<Key>::empty());
        }
    }
}

proof fn lemma_child_at(n: ActionNode, k: Key, i: int)
    requires
        is_first(n.children@, k, i),
    ensures
        n.child(k) == Some(n.children@[i].1),
{
    lemma_first_unique(n.children@, k, i);
}

proof fn lemma_no_child(n: ActionNode, k: Key)
    requires
        forall|j: int| 0 <= j < n.children@.len() ==> n.children@[j].0 != k,
    ensures
        n.child(k) is None,
{
}

/// Two nodes with the same edges reach the same nodes by non-empty sequences.
proof fn lemma_same_edges_same_paths(a: ActionNode, b: ActionNode)
    requires
        a.children@ == b.children@,
    ensures
        forall|p: Seq<Key>| p.len() > 0 ==> #[trigger] a.node_at(p) == b.node_at(p),
{
    assert forall|p: Seq<Key>| p.len() > 0 implies #[trigger] a.node_at(p) == b.node_at(p) by {
        assert(a.child(p[0]) == b.child(p[0]));
    }
}

/// Replacing the child at the first edge labelled `k` by one in which
/// `rest.drop_first()` is bound gives a node in which `rest` is bound.
proof fn lemma_update_edge(
    old: ActionNode,
    new: ActionNode,
    idx: int,
    k: Key,
    rest: Seq<Key>,
    action: Token,
)
    requires
        is_first(old.children@, k, idx),
        rest.len() > 0,
        rest[0] == k,
        new.action == old.action,
        new.children@ == old.children@.update(idx, (k, new.children@[idx].1)),
        inserted(old.children@[idx].1, new.children@[idx].1, rest.drop_first(), action),
    ensures
        inserted(old, new, rest, action),
{
    let oc = old.children@[idx].1;
    let nc = new.children@[idx].1;
    assert(is_first(new.children@, k, idx));
    lemma_child_at(old, k, idx);
    lemma_child_at(new, k, idx);
    assert forall|j: int| 0 <= j < old.children@.len() implies old.children@[j].0
        == new.children@[j].0 by {}
    assert forall|k2: Key| k2 != k implies #[trigger] new.child(k2) == old.child(k2) by {
        if exists|j: int| is_first(old.children@, k2, j) {
            let j = choose|j: int| is_first(old.children@, k2, j);
            assert(is_first(new.children@, k2, j));
            lemma_child_at(old, k2, j);
            lemma_child_at(new, k2, j);
        } else {
            if exists|j: int| is_first(new.children@, k2, j) {
                let j = choose|j: int| is_first(new.children@, k2, j);
                assert(is_first(old.children@, k2, j));
            }
        }
    }
    lemma_paths(old, new, k, oc, nc, rest, action);
}

/// Appending an edge labelled `k`, which no edge carried before, to a child
/// in which `rest.drop_first()` is bound gives a node in which `rest` is bound.
proof fn lemma_push_edge(
    old: ActionNode,
    new: ActionNode,
    empty: ActionNode,
    k: Key,
    rest: Seq<Key>,
    action: Token,
)
    requires
        forall|j: int| 0 <= j < old.children@.len() ==> old.children@[j].0 != k,
        rest.len() > 0,
        rest[0] == k,
        new.action == old.action,
        new.children@.len() == old.children@.len() + 1,
        new.children@.drop_last() == old.children@,
        new.children@.last().0 == k,
        empty.children@.len() == 0,
        empty.action is None,
        inserted(empty, new.children@.last().1, rest.drop_first(), action),
    ensures
        inserted(old, new, rest, action),
{
    let idx = old.children@.len() as int;
    let nc = new.children@.last().1;
    assert(new.children@[idx] == new.children@.last());
    assert forall|j: int| 0 <= j < idx implies new.children@[j] == old.children@[j] by {
        assert(new.children@.drop_last()[j] == new.children@[j]);
    }
    assert(is_first(new.children@, k, idx));
    lemma_child_at(new, k, idx);
    lemma_no_child(old, k);
    assert forall|k2: Key| k2 != k implies #[trigger] new.child(k2) == old.child(k2) by {
        if exists|j: int| is_first(old.children@, k2, j) {
            let j = choose|j: int| is_first(old.children@, k2, j);
            assert(is_first(new.children@, k2, j));
            lemma_child_at(old, k2, j);
            lemma_child_at(new, k2, j);
        } else {
            if exists|j: int| is_first(new.children@, k2, j) {
                let j = choose|j: int| is_first(new.children@, k2, j);
                assert(is_first(old.children@, k2, j));
            }
        }
    }
    lemma_paths(old, new, k, empty, nc, rest, action);
}

/// The common part of the two cases above.
proof fn lemma_paths(
    old: ActionNode,
    new: ActionNode,
    k: Key,
    oc: ActionNode,
    nc: ActionNode,
    rest: Seq<Key>,
    action: Token,
)
    requires
        rest.len() > 0,
        rest[0] == k,
        new.action == old.action,
        match old.child(k) {
            Some(c) => c == oc,
            None => oc.children@.len() == 0 && oc.action is None,
        },
        new.child(k) == Some(nc),
        forall|k2: Key| k2 != k ==> #[trigger] new.child(k2) == old.child(k2),
        inserted(oc, nc, rest.drop_first(), action),
    ensures
        inserted(old, new, rest, action),
{
    if old.child(k) is None {
        assert forall|q: Seq<Key>| q.len() > 0 implies #[trigger] oc.node_at(q) is None by {
            lemma_no_child(oc, q[0]);
        }
    }
    assert forall|p: Seq<Key>| #[trigger]
        new.node_at(p) is Some <==> (old.node_at(p) is Some || is_prefix(p, rest)) by {
        if p.len() > 0 {
            let q = p.drop_first();
            if p[0] == k {
                assert(nc.node_at(q) is Some <==> (oc.node_at(q) is Some || is_prefix(
                    q,
                    rest.drop_first(),
                )));
                if q.len() == 0 {
                    assert(rest.drop_first().subrange(0, 0) =~= q);
                }
                if is_prefix(q, rest.drop_first()) {
                    assert forall|i: int| 0 <= i < p.len() implies rest.subrange(
                        0,
                        p.len() as int,
                    )[i] == p[i] by {
                        if i > 0 {
                            assert(rest.drop_first().subrange(0, q.len() as int)[i - 1] == q[i - 1]);
                        }
                    }
                    assert(rest.subrange(0, p.len() as int) =~= p);
                }
                if is_prefix(p, rest) {
                    assert forall|i: int| 0 <= i < q.len() implies rest.drop_first().subrange(
                        0,
                        q.len() as int,
                    )[i] == q[i] by {
                        assert(rest.subrange(0, p.len() as int)[i + 1] == p[i + 1]);
                    }
                    assert(rest.drop_first().subrange(0, q.len() as int) =~= q);
                }
            } else {
                assert(new.child(p[0]) == old.child(p[0]));
                if is_prefix(p, rest) {
                    assert(rest.subrange(0, p.len() as int)[0] == p[0]);
                }
            }
        } else {
            assert(rest.subrange(0, 0) == p);
        }
    }
    assert forall|p: Seq<Key>| #[trigger]
        new.action_at(p) == if p == rest {
            Some(action)
        } else {
            old.action_at(p)
        } by {
        if p.len() > 0 {
            let q = p.drop_first();
            if p[0] == k {
                assert(nc.action_at(q) == if q == rest.drop_first() {
                    Some(action)
                } else {
                    oc.action_at(q)
                });
                if q == rest.drop_first() {
                    assert forall|i: int| 0 <= i < p.len() implies p[i] == rest[i] by {
                        if i > 0 {
                            assert(q[i - 1] == rest.drop_first()[i - 1]);
                        }
                    }
                    assert(p =~= rest);
                }
                if p == rest {
                    assert(q == rest.drop_first());
                }
            } else {
                assert(new.child(p[0]) == old.child(p[0]));
                assert(p != rest);
            }
        } else {
            assert(p != rest);
        }
    }
}

/// The keys written in `ss`, left to right; the first text that is not a key
/// gives the error.
pub open spec fn parse_keys_spec(ss: Seq<String>) -> Result<Seq<Key>, Seq<char>>
    decreases ss.len(),
{
    if ss.len() == 0 {
        Ok(Seq::empty())
    } else {
        match parse_keys_spec(ss.drop_last()) {
            Err(e) => Err(e),
            Ok(ks) => match parse_key_spec(ss.last()@) {
                Ok(k) => Ok(ks.push(k)),
                Err(e) => Err(e),
            },
        }
    }
}

/// Parses each text of `ss` as a key.
pub fn parse_keys(ss: &[String]) -> (r: Result<Vec<Key>, String>)
    ensures
        match r {
            Ok(ks) => parse_keys_spec(ss@) == Ok::<Seq<Key>, Seq<char>>(ks@),
            Err(e) => parse_keys_spec(ss@) == Err::<Seq<Key>, Seq<char>>(e@),
        },
{
    let mut keys: Vec<Key> = Vec::new();
    let mut i: usize = 0;
    while i < ss.len()
        invariant
            i <= ss@.len(),
            parse_keys_spec(ss@.subrange(0, i as int)) == Ok::<Seq<Key>, Seq<char>>(keys@),
        decreases ss@.len() - i,
    {
        assert(ss@.subrange(0, i + 1).drop_last() == ss@.subrange(0, i as int));
        match parse_key(ss[i].as_str()) {
            Ok(k) => {
                keys.push(k);
            },
            Err(e) => {
                proof {
                    lemma_parse_keys_err_extend(ss@, i as int + 1);
                }
                return Err(e);
            },
        }
        i = i + 1;
    }
    assert(ss@.subrange(0, i as int) == ss@);
    Ok(keys)
}

proof fn lemma_parse_keys_err_extend(ss: Seq<String>, k: int)
    requires
        0 <= k <= ss.len(),
        parse_keys_spec(ss.subrange(0, k)) is Err,
    ensures
        parse_keys_spec(ss) == parse_keys_spec(ss.subrange(0, k)),
    decreases ss.len() - k,
{
    if k < ss.len() {
        assert(ss.subrange(0, k + 1).drop_last() == ss.subrange(0, k));
        lemma_parse_keys_err_extend(ss, k + 1);
    } else {
        assert(ss.subrange(0, k) == ss);
    }
}

/// Binds `action` to the key sequence written in `key_sequence` (such as
/// `["ctrl+w", "down"]`). Where a text is not a key, the error names it and the
/// trie is left as it was.
pub fn insert_into_tree(root: &mut ActionNode, key_sequence: &[String], action: Token) -> (r:
    Result<(), String>)
    ensures
        old(root).wf() ==> final(root).wf(),
        match parse_keys_spec(key_sequence@) {
            Err(e) => r matches Err(m) && m@ == e && *final(root) == *old(root),
            Ok(ks) => r is Ok && (ks.len() == 0 ==> *final(root) == *old(root)) && (ks.len() > 0
                ==> inserted(*old(root), *final(root), ks, action)),
        },
{
    let keys = parse_keys(key_sequence)?;
    root.insert(keys.as_slice(), action);
    Ok(())
}

/// A trie that binds `action` to the key sequence written in `key_sequence`
/// and nothing else.
pub fn build_keymap_tree(key_sequence: &Vec<String>, action: Token) -> (r: Result<
    ActionNode,
    String,
>)
    ensures
        r matches Ok(t) ==> t.wf(),
        match parse_keys_spec(key_sequence@) {
            Err(e) => r matches Err(m) && m@ == e,
            Ok(ks) => r matches Ok(t) && (ks.len() == 0 ==> t.children@.len() == 0 && t.action is None)
                && (ks.len() > 0 ==> bound_alone(t, ks, action)),
        },
{
    let mut root = ActionNode::new();
    let ghost empty = root;
    insert_into_tree(&mut root, key_sequence.as_slice(), action)?;
    proof {
        if let Ok(ks) = parse_keys_spec(key_sequence@) {
            if ks.len() > 0 {
                lemma_insert_into_empty(empty, root, ks, action);
            }
        }
    }
    Ok(root)
}

/// `t` binds `action` to `s` and nothing else, and has no node off the way to `s`.
pub open spec fn bound_alone(t: ActionNode, s: Seq<Key>, action: Token) -> bool {
    &&& forall|p: Seq<Key>| #[trigger] t.node_at(p) is Some <==> is_prefix(p, s)
    &&& forall|p: Seq<Key>| #[trigger]
        t.action_at(p) == if p == s {
            Some(action)
        } else {
            None::<Token>
        }
}

/// A binding made in an empty node is the only one there.
pub proof fn lemma_insert_into_empty(e: ActionNode, t: ActionNode, s: Seq<Key>, action: Token)
    requires
        e.children@.len() == 0,
        e.action is None,
        s.len() > 0,
        inserted(e, t, s, action),
    ensures
        bound_alone(t, s, action),
{
    assert forall|p: Seq<Key>| #[trigger] t.node_at(p) is Some <==> is_prefix(p, s) by {
        if p.len() > 0 {
            lemma_no_child(e, p[0]);
        } else {
            assert(s.subrange(0, 0) =~= p);
        }
    }
    assert forall|p: Seq<Key>| #[trigger]
        t.action_at(p) == if p == s {
            Some(action)
        } else {
            None::<Token>
        } by {
        if p.len() > 0 {
            lemma_no_child(e, p[0]);
        }
    }
}

/// Walking one more key from where `p` leads is following that key's edge.
pub proof fn lemma_node_at_push(n: ActionNode, p: Seq<Key>, k: Key)
    ensures
        n.node_at(p.push(k)) == match n.node_at(p) {
            Some(m) => m.child(k),
            None => None,
        },
    decreases p.len(),
{
    if p.len() == 0 {
        assert(p.push(k).drop_first() == Seq::<Key>::empty());
        assert(p.push(k)[0] == k);
        match n.child(k) {
            Some(c) => assert(c.node_at(Seq::<Key>::empty()) == Some(c)),
            None => {},
        }
    } else {
        assert(p.push(k).drop_first() == p.drop_first().push(k));
        assert(p.push(k)[0] == p[0]);
        match n.child(p[0]) {
            Some(c) => lemma_node_at_push(c, p.drop_first(), k),
            None => {},
        }
    }
}

/// A cursor advanced key by key through a bound sequence never finds its edge
/// missing, and the last key matches the action bound to the sequence.
pub proof fn lemma_inserted_sequence_matches(old: ActionNode, new: ActionNode, s: Seq<Key>, action: Token)
    requires
        s.len() > 0,
        inserted(old, new, s, action),
    ensures
        forall|i: int|
            0 <= i < s.len() ==> (#[trigger] new.node_at(s.subrange(0, i))) is Some
                && new.node_at(s.subrange(0, i))->Some_0.advance_spec(s[i]) != Advance::Dead,
        new.node_at(s.drop_last()) is Some,
        new.node_at(s.drop_last())->Some_0.advance_spec(s.last()) == Advance::Matched,
        new.action_at(s) == Some(action),
{
    assert forall|i: int| 0 <= i < s.len() implies (#[trigger] new.node_at(s.subrange(0, i))) is Some
        && new.node_at(s.subrange(0, i))->Some_0.advance_spec(s[i]) != Advance::Dead by {
        let p = s.subrange(0, i);
        assert(is_prefix(p, s));
        assert(is_prefix(s.subrange(0, i + 1), s));
        assert(s.subrange(0, i + 1) == p.push(s[i]));
        lemma_node_at_push(new, p, s[i]);
        assert(new.node_at(p.push(s[i])) is Some);
    }
    let p = s.drop_last();
    assert(p.push(s.last()) == s);
    lemma_node_at_push(new, p, s.last());
    assert(is_prefix(p, s));
    assert(new.action_at(s) == Some(action));
}

/// Binding two different sequences one after the other keeps both bindings.
pub proof fn lemma_two_sequences_independent(
    t0: ActionNode,
    t1: ActionNode,
    t2: ActionNode,
    s1: Seq<Key>,
    a1: Token,
    s2: Seq<Key>,
    a2: Token,
)
    requires
        s1 != s2,
        inserted(t0, t1, s1, a1),
        inserted(t1, t2, s2, a2),
    ensures
        t2.action_at(s1) == Some(a1),
        t2.action_at(s2) == Some(a2),
{
    assert(t1.action_at(s1) == Some(a1));
    assert(t2.action_at(s1) == t1.action_at(s1));
    assert(t2.action_at(s2) == Some(a2));
}

pub open spec fn action_view(a: Option<Token>) -> Seq<TokenView> {
    match a {
        Some(t) => seq![t@],
        None => Seq::empty(),
    }
}

impl ActionNode {
    /// The actions of the trie in pre-order: with `i` negative, this node's
    /// action and then those below it; otherwise those below the edges from
    /// `i` on, edge by edge.
    pub open spec fn actions_from(self, i: int) -> Seq<TokenView>
        decreases self, self.children@.len() - i,
    {
        if i < 0 {
            action_view(self.action) + self.actions_from(0)
        } else if i >= self.children@.len() {
            Seq::empty()
        } else {
            self.children@[i].1.actions_from(-1) + self.actions_from(i + 1)
        }
    }

    /// Appends the actions of the trie to `out`, in pre-order: a node's own
    /// action before those below it, edges in order.
    pub fn collect(&self, out: &mut Vec<Token>)
        ensures
            final(out)@.map_values(|t: Token| t@) == old(out)@.map_values(|t: Token| t@) + self.actions_from(-1),
        decreases self,
    {
        let ghost start = out@.map_values(|t: Token| t@);
        if let Some(token) = &self.action {
            out.push(token.duplicate());
        }
        assert(out@.map_values(|t: Token| t@) =~= start + action_view(self.action));
        let mut i: usize = 0;
        while i < self.children.len()
            invariant
                i <= self.children@.len(),
                out@.map_values(|t: Token| t@) + self.actions_from(i as int) == start + self.actions_from(-1),
            decreases self.children@.len() - i,
        {
            let ghost before = out@.map_values(|t: Token| t@);
            proof {
                broadcast use vstd::std_specs::vec::axiom_vec_index_decreases;
                assert(decreases_to!(self.children => self.children@[i as int]));
            }
            self.children[i].1.collect(out);
            assert(before + self.actions_from(i as int) =~= out@.map_values(|t: Token| t@) + self.actions_from(i as int + 1));
            i = i + 1;
        }
        assert(out@.map_values(|t: Token| t@) + self.actions_from(i as int) =~= out@.map_values(|t: Token| t@));
    }
}

} // verus!
