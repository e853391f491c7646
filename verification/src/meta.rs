//! The attribute model: a `Meta` is one named, formattable value
//! attached to a log event; attributes arrive in links, each link a
//! batch, chained backward to the links attached before it. Forward
//! iteration visits the oldest link's batch first, then each newer one,
//! in the order the batches were attached.

use vstd::prelude::*;

use crate::fmt::Error;
use crate::fmt::Format;
use crate::fmt::FormatSpec;
use crate::fmt::Formatter;
use crate::fmt::spec_bool_text;
use crate::fmt::spec_render_int;
use crate::fmt::spec_render_str;
use crate::fmt::wrote;

verus! {

/// A value an attribute can hold: a boolean, an integer or a string.
#[derive(Debug)]
pub enum Value {
    Bool(bool),
    I64(i64),
    U64(u64),
    Str(String),
}

/// What a value renders to under a spec: booleans and strings go
/// through the string path, integers through the numeric path.
pub open spec fn value_rendering(v: Value, fs: FormatSpec) -> Seq<char> {
    match v {
        Value::Bool(b) => spec_render_str(spec_bool_text(b), fs),
        Value::I64(x) => spec_render_int(x as int, fs),
        Value::U64(x) => spec_render_int(x as int, fs),
        Value::Str(s) => spec_render_str(s@, fs),
    }
}

impl Value {
    /// An exact copy of the value.
    pub fn dup(&self) -> (r: Value)
        ensures
            r == *self,
    {
        match self {
            Value::Bool(b) => Value::Bool(*b),
            Value::I64(x) => Value::I64(*x),
            Value::U64(x) => Value::U64(*x),
            Value::Str(s) => Value::Str(s.clone()),
        }
    }
}

impl Format for Value {
    open spec fn rendering(&self, fs: FormatSpec) -> Seq<char> {
        value_rendering(*self, fs)
    }

    fn format(&self, f: &mut Formatter) -> (r: Result<(), Error>) {
        match self {
            Value::Bool(b) => b.format(f),
            Value::I64(x) => x.format(f),
            Value::U64(x) => x.format(f),
            Value::Str(s) => s.format(f),
        }
    }
}

/// One attribute: a name and a formattable value.
#[derive(Debug)]
pub struct Meta {
    pub name: &'static str,
    pub value: Value,
}

impl Meta {
    /// An attribute with the given name and value.
    pub fn new(name: &'static str, value: Value) -> (r: Meta)
        ensures
            r.name == name,
            r.value == value,
    {
        Meta { name: name, value: value }
    }

    /// An exact copy of the attribute.
    pub fn dup(&self) -> (r: Meta)
        ensures
            r == *self,
    {
        Meta { name: self.name, value: self.value.dup() }
    }
}

/// One link of the attribute chain: a batch of attributes, the link
/// attached before it, and its position in the chain (0 for the root,
/// one more than the previous link otherwise).
#[derive(Debug)]
pub struct MetaLink {
    pub id: usize,
    pub data: Vec<Meta>,
    pub prev: Option<Box<MetaLink>>,
}

impl MetaLink {
    /// A chain is well formed when every link's id counts its distance
    /// from the root.
    pub open spec fn wf(self) -> bool
        decreases self,
    {
        match self.prev {
            Option::None => self.id == 0,
            Option::Some(p) => p.wf() && self.id == p.id + 1,
        }
    }

    /// Every attribute reachable from this link, oldest batch first.
    pub open spec fn flat(self) -> Seq<Meta>
        decreases self,
    {
        match self.prev {
            Option::None => self.data@,
            Option::Some(p) => p.flat() + self.data@,
        }
    }

    /// The link at distance `k` from the root.
    pub open spec fn link_at(self, k: nat) -> MetaLink
        recommends
            self.wf(),
            k <= self.id,
        decreases self,
    {
        if self.id == k || self.prev is None {
            self
        } else {
            self.prev.unwrap().link_at(k)
        }
    }

    /// A chain head holding the given batch and nothing before it.
    pub fn new(data: Vec<Meta>) -> (r: MetaLink)
        ensures
            r.wf(),
            r.id == 0,
            r.flat() == data@,
            r.prev is None,
    {
        MetaLink { id: 0, data: data, prev: None }
    }

    /// A new chain head holding the given batch, appended to `prev`.
    pub fn with_link(data: Vec<Meta>, prev: MetaLink) -> (r: MetaLink)
        requires
            prev.wf(),
            prev.id < usize::MAX,
        ensures
            r.wf(),
            r.id == prev.id + 1,
            r.flat() == prev.flat() + data@,
    {
        let id = prev.id + 1;
        MetaLink { id: id, data: data, prev: Some(Box::new(prev)) }
    }

    /// Every reachable attribute as one vector, oldest batch first.
    pub fn flat_vec(&self) -> (r: Vec<Meta>)
        ensures
            r@ == self.flat(),
        decreases *self,
    {
        let mut r: Vec<Meta> = match &self.prev {
            Some(p) => p.flat_vec(),
            None => Vec::new(),
        };
        let mut j: usize = 0;
        while j < self.data.len()
            invariant
                j <= self.data@.len(),
                r@ == (match self.prev {
                    Option::None => Seq::<Meta>::empty(),
                    Option::Some(p) => p.flat(),
                }) + self.data@.take(j as int),
            decreases self.data@.len() - j,
        {
            r.push(self.data[j].dup());
            j = j + 1;
        }
        proof {
            assert(self.data@.take(self.data@.len() as int) =~= self.data@);
            if self.prev is None {
                assert(Seq::<Meta>::empty() + self.data@ =~= self.data@);
            }
        }
        r
    }

    /// A front-to-back iterator over every reachable attribute.
    pub fn iter(&self) -> (it: MetaLinkIter)
        ensures
            it.items@ == self.flat(),
            it.pos == 0,
    {
        MetaLinkIter { items: self.flat_vec(), pos: 0 }
    }
}

/// Walks the links of a chain from the root to the newest.
pub struct LinkIter<'a> {
    pub pos: usize,
    pub tail: &'a MetaLink,
}

impl<'a> LinkIter<'a> {
    pub fn new(tail: &'a MetaLink) -> (it: LinkIter<'a>)
        ensures
            it.pos == 0,
            it.tail == tail,
    {
        LinkIter { pos: 0, tail: tail }
    }

    /// The next link, root first; each link is reached by walking back
    /// from the newest.
    pub fn next(&mut self) -> (r: Option<&'a MetaLink>)
        requires
            old(self).tail.wf(),
            old(self).tail.id < usize::MAX,
        ensures
            final (self).tail == old(self).tail,
            match r {
                Option::Some(l) => old(self).pos <= old(self).tail.id && *l == old(
                    self,
                ).tail.link_at(old(self).pos as nat) && final (self).pos == old(self).pos + 1,
                Option::None => old(self).pos > old(self).tail.id && final (self).pos == old(
                    self,
                ).pos,
            },
    {
        if self.pos > self.tail.id {
            None
        } else {
            let l = link_walk(self.tail, self.pos);
            self.pos = self.pos + 1;
            Some(l)
        }
    }

    /// How many links are left to visit.
    pub fn count(self) -> (r: usize)
        requires
            self.tail.wf(),
            self.tail.id < usize::MAX,
        ensures
            r == if self.pos <= self.tail.id {
                self.tail.id - self.pos + 1
            } else {
                0
            },
    {
        if self.pos <= self.tail.id {
            self.tail.id - self.pos + 1
        } else {
            0
        }
    }
}

fn link_walk<'a>(tail: &'a MetaLink, k: usize) -> (r: &'a MetaLink)
    requires
        tail.wf(),
        k <= tail.id,
    ensures
        *r == tail.link_at(k as nat),
    decreases *tail,
{
    if tail.id == k {
        tail
    } else {
        match &tail.prev {
            Some(p) => link_walk(p, k),
            None => {
                proof {
                    assert(false);
                }
                tail
            },
        }
    }
}

/// A front-to-back iterator over the attributes of a chain: the oldest
/// batch's attributes first, then each newer batch's, in attach order.
pub struct MetaLinkIter {
    pub items: Vec<Meta>,
    pub pos: usize,
}

impl MetaLinkIter {
    /// The next attribute, or nothing once all have been visited.
    pub fn next(&mut self) -> (r: Option<&Meta>)
        ensures
            final (self).items == old(self).items,
            match r {
                Option::Some(m) => old(self).pos < old(self).items@.len() && *m == old(
                    self,
                ).items@[old(self).pos as int] && final (self).pos == old(self).pos + 1,
                Option::None => old(self).pos >= old(self).items@.len() && final (self).pos == old(
                    self,
                ).pos,
            },
    {
        if self.pos < self.items.len() {
            let m = &self.items[self.pos];
            self.pos = self.pos + 1;
            Some(m)
        } else {
            None
        }
    }

    /// How many attributes are left to visit.
    pub fn count(self) -> (r: usize)
        ensures
            r == if self.pos <= self.items@.len() {
                self.items@.len() - self.pos
            } else {
                0
            },
    {
        if self.pos <= self.items.len() {
            self.items.len() - self.pos
        } else {
            0
        }
    }
}

/// The owning twin of `Meta`, for a record that crosses scopes.
#[derive(Debug)]
pub struct MetaBuf {
    pub name: &'static str,
    pub value: Value,
}

impl MetaBuf {
    /// An owned attribute with the given name and value.
    pub fn new(name: &'static str, value: Value) -> (r: MetaBuf)
        ensures
            r.name == name,
            r.value == value,
    {
        MetaBuf { name: name, value: value }
    }

    /// The borrowed form of this attribute.
    pub fn to_meta(&self) -> (m: Meta)
        ensures
            m.name == self.name,
            m.value == self.value,
    {
        Meta { name: self.name, value: self.value.dup() }
    }
}

} // verus!
