//! Named values: what the parameters of a route captured from a path, or
//! what a path is to be rendered from.

use crate::strings::bytes_of;
use crate::text::same_bytes;
use smartcow::SmartCow;
use vstd::prelude::*;
use vstd::string::StringSliceAdditionalSpecFns;

verus! {

/// `smartcow::SmartCow`: a string that is borrowed or owned. What it holds is
/// named by [`cow_chars`].
#[verifier::external_type_specification]
#[verifier::external_body]
pub struct ExSmartCow<'a>(SmartCow<'a>);

/// The characters that a `SmartCow` holds, borrowed or owned.
pub uninterp spec fn cow_chars(text: SmartCow<'_>) -> Seq<char>;

/// The UTF-8 bytes that a `SmartCow` holds.
pub open spec fn cow_bytes(text: SmartCow<'_>) -> Seq<u8> {
    bytes_of(cow_chars(text))
}

/// `SmartCow::from(&str)`: a borrowed value with the characters of `text`.
#[verifier::external_body]
fn cow_borrowed<'a>(text: &'a str) -> (held: SmartCow<'a>)
    ensures
        cow_chars(held) == text@,
{
    SmartCow::from(text)
}

/// `SmartCow::from(String)`: an owned value with the characters of `text`.
#[verifier::external_body]
fn cow_owned(text: String) -> (held: SmartCow<'static>)
    ensures
        cow_chars(held) == text@,
{
    SmartCow::from(text)
}

/// `SmartCow::deref`: the characters held, as a `&str`.
#[verifier::external_body]
fn cow_as_str<'a, 'b>(held: &'b SmartCow<'a>) -> (text: &'b str)
    ensures
        text@ == cow_chars(*held),
{
    std::ops::Deref::deref(held)
}

/// `SmartCow::into_owned`: an owned value with the same characters.
#[verifier::external_body]
fn cow_into_owned(held: SmartCow<'_>) -> (owned: SmartCow<'static>)
    ensures
        cow_chars(owned) == cow_chars(held),
{
    held.into_owned()
}

/// A name and a value, as UTF-8 bytes.
pub struct Pair {
    pub name: Seq<u8>,
    pub value: Seq<u8>,
}

/// An individual key-value pair.
#[derive(Debug)]
pub struct Capture<'key, 'value> {
    key: SmartCow<'key>,
    value: SmartCow<'value>,
}

impl<'key, 'value> View for Capture<'key, 'value> {
    type V = Pair;

    closed spec fn view(&self) -> Pair {
        Pair { name: cow_bytes(self.key), value: cow_bytes(self.value) }
    }
}

impl<'key, 'value> Capture<'key, 'value> {
    /// A capture that borrows the given name and value.
    pub fn new(key: &'key str, value: &'value str) -> (capture: Capture<'key, 'value>)
        ensures
            capture@ == (Pair { name: key.spec_bytes(), value: value.spec_bytes() }),
    {
        Capture { key: cow_borrowed(key), value: cow_borrowed(value) }
    }

    /// A capture that owns the given name and value.
    pub fn owned(key: String, value: String) -> (capture: Capture<'static, 'static>)
        ensures
            capture@ == (Pair { name: bytes_of(key@), value: bytes_of(value@) }),
    {
        Capture { key: cow_owned(key), value: cow_owned(value) }
    }

    /// The name of this capture.
    pub fn name(&self) -> (name: &str)
        ensures
            name.spec_bytes() == self@.name,
    {
        cow_as_str(&self.key)
    }

    /// The value of this capture.
    pub fn value(&self) -> (value: &str)
        ensures
            value.spec_bytes() == self@.value,
    {
        cow_as_str(&self.value)
    }

    /// Turns this capture into one that owns its text and can outlive what
    /// it was borrowed from.
    pub fn into_owned(self) -> (owned: Capture<'static, 'static>)
        ensures
            owned@ == self@,
    {
        Capture { key: cow_into_owned(self.key), value: cow_into_owned(self.value) }
    }
}

impl<'key, 'value> Default for Capture<'key, 'value> {
    /// A capture with an empty name and an empty value.
    fn default() -> (capture: Capture<'key, 'value>)
        ensures
            capture@ == (Pair { name: "".spec_bytes(), value: "".spec_bytes() }),
    {
        Capture::new("", "")
    }
}

/// What a [`Captures`] holds: the pairs in order, and the wildcard's value.
pub struct Named {
    pub params: Seq<Pair>,
    pub wildcard: Option<Seq<u8>>,
}

/// The pairs that a sequence of captures stands for.
pub open spec fn pairs_of(captures: Seq<Capture<'_, '_>>) -> Seq<Pair> {
    Seq::new(captures.len(), |i: int| captures[i]@)
}

/// The value of the first pair named `key` among the pairs from `from` on.
pub open spec fn value_of(params: Seq<Pair>, key: Seq<u8>, from: int) -> Option<Seq<u8>>
    decreases params.len() - from,
{
    if from < 0 || from >= params.len() {
        None
    } else if params[from].name == key {
        Some(params[from].value)
    } else {
        value_of(params, key, from + 1)
    }
}

/// The pairs of captures with one more capture at the end.
pub proof fn lemma_pairs_of_push(captures: Seq<Capture<'_, '_>>, capture: Capture<'_, '_>)
    ensures
        pairs_of(captures.push(capture)) == pairs_of(captures).push(capture@),
{
}

/// Captured params and a wildcard.
#[derive(Debug)]
pub struct Captures<'keys, 'values> {
    params: Vec<Capture<'keys, 'values>>,
    wildcard: Option<SmartCow<'values>>,
}

impl<'keys, 'values> View for Captures<'keys, 'values> {
    type V = Named;

    closed spec fn view(&self) -> Named {
        Named {
            params: pairs_of(self.params@),
            wildcard: match self.wildcard {
                Some(held) => Some(cow_bytes(held)),
                None => None,
            },
        }
    }
}

impl<'keys, 'values> Default for Captures<'keys, 'values> {
    /// An empty set of captures.
    fn default() -> (captures: Captures<'keys, 'values>)
        ensures
            captures@ == (Named { params: Seq::empty(), wildcard: None }),
    {
        Captures::new()
    }
}

impl<'keys, 'values> Captures<'keys, 'values> {
    /// An empty set of captures.
    pub fn new() -> (captures: Captures<'keys, 'values>)
        ensures
            captures@ == (Named { params: Seq::empty(), wildcard: None }),
    {
        let captures = Captures { params: Vec::new(), wildcard: None };
        assert(pairs_of(captures.params@) =~= Seq::empty());
        captures
    }

    /// The captures made of the given pairs, in order, without a wildcard.
    pub fn from_pairs(pairs: &[(&'keys str, &'values str)]) -> (captures: Captures<'keys, 'values>)
        ensures
            captures@.wildcard is None,
            captures@.params.len() == pairs@.len(),
            forall|i: int|
                0 <= i < pairs@.len() ==> captures@.params[i] == (Pair {
                    name: pairs@[i].0.spec_bytes(),
                    value: pairs@[i].1.spec_bytes(),
                }),
    {
        let mut params: Vec<Capture<'keys, 'values>> = Vec::new();
        let mut i: usize = 0;
        while i < pairs.len()
            invariant
                i <= pairs@.len(),
                params@.len() == i,
                forall|j: int|
                    0 <= j < i ==> params@[j]@ == (Pair {
                        name: pairs@[j].0.spec_bytes(),
                        value: pairs@[j].1.spec_bytes(),
                    }),
            decreases pairs@.len() - i,
        {
            params.push(Capture::new(pairs[i].0, pairs[i].1));
            i = i + 1;
        }
        Captures { params, wildcard: None }
    }

    /// Turns these captures into ones that own their text.
    pub fn into_owned(self) -> (owned: Captures<'static, 'static>)
        ensures
            owned@ == self@,
    {
        let ghost before = self@;
        let Captures { params, wildcard } = self;
        let mut left = params;
        let mut turned: Vec<Capture<'static, 'static>> = Vec::new();
        // Taken from the back, then put back in order.
        while left.len() > 0
            invariant
                left@.len() + turned@.len() == before.params.len(),
                forall|j: int| 0 <= j < left@.len() ==> left@[j]@ == before.params[j],
                forall|j: int|
                    0 <= j < turned@.len() ==> turned@[j]@ == before.params[before.params.len() - 1
                        - j],
            decreases left@.len(),
        {
            match left.pop() {
                Some(capture) => {
                    turned.push(capture.into_owned());
                },
                None => {},
            }
        }
        let mut params: Vec<Capture<'static, 'static>> = Vec::new();
        while turned.len() > 0
            invariant
                params@.len() + turned@.len() == before.params.len(),
                forall|j: int| 0 <= j < params@.len() ==> params@[j]@ == before.params[j],
                forall|j: int|
                    0 <= j < turned@.len() ==> turned@[j]@ == before.params[before.params.len() - 1
                        - j],
            decreases turned@.len(),
        {
            match turned.pop() {
                Some(capture) => {
                    params.push(capture);
                },
                None => {},
            }
        }
        let wildcard = match wildcard {
            Some(held) => Some(cow_into_owned(held)),
            None => None,
        };
        let owned = Captures { params, wildcard };
        assert(owned@.params =~= before.params);
        owned
    }

    /// The pairs, in order.
    pub fn params(&self) -> (params: &[Capture<'keys, 'values>])
        ensures
            pairs_of(params@) == self@.params,
    {
        self.params.as_slice()
    }

    /// Sets the value of the wildcard.
    pub fn set_wildcard(&mut self, wildcard: &'values str)
        ensures
            final(self)@ == (Named {
                params: old(self)@.params,
                wildcard: Some(wildcard.spec_bytes()),
            }),
    {
        self.wildcard = Some(cow_borrowed(wildcard));
    }

    /// What the wildcard matched, if there is a wildcard value.
    pub fn wildcard(&self) -> (wildcard: Option<&str>)
        ensures
            match self@.wildcard {
                Some(bytes) => wildcard is Some && wildcard->0.spec_bytes() == bytes,
                None => wildcard is None,
            },
    {
        match &self.wildcard {
            Some(held) => Some(cow_as_str(held)),
            None => None,
        }
    }

    /// The value of the first pair named `key`.
    pub fn get(&self, key: &str) -> (value: Option<&str>)
        ensures
            match value_of(self@.params, key.spec_bytes(), 0) {
                Some(bytes) => value is Some && value->0.spec_bytes() == bytes,
                None => value is None,
            },
    {
        let wanted = key.as_bytes();
        let mut i: usize = 0;
        while i < self.params.len()
            invariant
                i <= self.params@.len(),
                wanted@ == key.spec_bytes(),
                value_of(self@.params, key.spec_bytes(), 0) == value_of(
                    self@.params,
                    key.spec_bytes(),
                    i as int,
                ),
            decreases self.params@.len() - i,
        {
            let capture = &self.params[i];
            if same_bytes(capture.name().as_bytes(), wanted) {
                return Some(capture.value());
            }
            i = i + 1;
        }
        None
    }

    /// Adds a pair at the end.
    pub fn push(&mut self, capture: Capture<'keys, 'values>)
        ensures
            final(self)@ == (Named {
                params: old(self)@.params.push(capture@),
                wildcard: old(self)@.wildcard,
            }),
    {
        proof {
            lemma_pairs_of_push(self.params@, capture);
        }
        self.params.push(capture);
    }

    /// Adds the pairs of `captures` at the end, and takes its wildcard
    /// value, or its lack of one.
    pub fn append(&mut self, captures: Captures<'keys, 'values>)
        ensures
            final(self)@ == (Named {
                params: old(self)@.params + captures@.params,
                wildcard: captures@.wildcard,
            }),
    {
        let Captures { params, wildcard } = captures;
        let mut params = params;
        let ghost mine = self.params@;
        let ghost theirs = params@;
        self.params.append(&mut params);
        self.wildcard = wildcard;
        assert(pairs_of(mine + theirs) =~= pairs_of(mine) + pairs_of(theirs));
    }

    /// Adds the pairs of `captures` at the end, and keeps the wildcard value
    /// as it is.
    pub fn extend(&mut self, captures: Captures<'keys, 'values>)
        ensures
            final(self)@ == (Named {
                params: old(self)@.params + captures@.params,
                wildcard: old(self)@.wildcard,
            }),
    {
        let Captures { params, wildcard: _ } = captures;
        let mut params = params;
        let ghost mine = self.params@;
        let ghost theirs = params@;
        self.params.append(&mut params);
        assert(pairs_of(mine + theirs) =~= pairs_of(mine) + pairs_of(theirs));
    }

    /// The pairs as `(name, value)`, in order.
    pub fn iter(&self) -> (pairs: Vec<(&str, &str)>)
        ensures
            pairs@.len() == self@.params.len(),
            forall|i: int|
                0 <= i < pairs@.len() ==> self@.params[i] == (Pair {
                    name: pairs@[i].0.spec_bytes(),
                    value: pairs@[i].1.spec_bytes(),
                }),
    {
        let mut pairs: Vec<(&str, &str)> = Vec::new();
        let mut i: usize = 0;
        while i < self.params.len()
            invariant
                i <= self.params@.len(),
                pairs@.len() == i,
                forall|j: int|
                    0 <= j < i ==> self@.params[j] == (Pair {
                        name: pairs@[j].0.spec_bytes(),
                        value: pairs@[j].1.spec_bytes(),
                    }),
            decreases self.params@.len() - i,
        {
            let capture = &self.params[i];
            pairs.push((capture.name(), capture.value()));
            i = i + 1;
        }
        pairs
    }
}

} // verus!
