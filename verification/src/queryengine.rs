//! Which action a query asks for.
//!
//! The first item of a query names the action, in any mix of upper and
//! lower case. What runs the action lives outside this library; here is the
//! decision.

use bytes::Bytes;
use core::ops::Deref;
use vstd::prelude::*;

verus! {

#[verifier::external_type_specification]
#[verifier::external_body]
pub struct ExBytes(bytes::Bytes);

/// The bytes that a `Bytes` holds, first to last.
pub uninterp spec fn bytes_contents(b: Bytes) -> Seq<u8>;

/// `Bytes::deref`: the bytes that the value holds, as a slice.
#[verifier::external_body]
fn bytes_as_slice(b: &Bytes) -> (s: &[u8])
    ensures
        s@ == bytes_contents(*b),
{
    b.deref()
}

/// The actions that a query can ask for, each under its name on the wire.
#[allow(non_camel_case_types)]
#[derive(Debug, Clone, Copy, PartialEq, Eq)]
pub enum Action {
    /// `GET`: read the value of a key.
    GET,
    /// `SET`: set the value of a key that does not exist yet.
    SET,
    /// `UPDATE`: set the value of a key that exists.
    UPDATE,
    /// `DEL`: delete keys.
    DEL,
    /// `HEYA`: answer a greeting.
    HEYA,
    /// `EXISTS`: count the keys that exist.
    EXISTS,
    /// `MSET`: set several new keys.
    MSET,
    /// `MGET`: read several keys.
    MGET,
    /// `MUPDATE`: update several keys.
    MUPDATE,
    /// `SSET`: set several new keys, all or none.
    SSET,
    /// `SDEL`: delete several keys, all or none.
    SDEL,
    /// `SUPDATE`: update several keys, all or none.
    SUPDATE,
    /// `DBSIZE`: count the keys in the store.
    DBSIZE,
    /// `FLUSHDB`: delete every key.
    FLUSHDB,
    /// `USET`: set keys whether they exist or not.
    USET,
    /// `KEYLEN`: the length of a key's value.
    KEYLEN,
    /// `MKSNAP`: make a snapshot.
    MKSNAP,
    /// `LSKEYS`: list keys.
    LSKEYS,
    /// `POP`: read a key and delete it.
    POP,
    /// `CREATE`: create a container.
    CREATE,
    /// `DROP`: drop a container.
    DROP,
    /// `USE`: switch to another container.
    USE,
    /// `INSPECT`: describe a container.
    INSPECT,
    /// `MPOP`: read several keys and delete them.
    MPOP,
}

impl Action {
    /// The name of the action on the wire: upper-case ASCII.
    pub open spec fn spec_tag(self) -> Seq<u8> {
        match self {
            Action::GET => seq![71u8, 69, 84],
            Action::SET => seq![83u8, 69, 84],
            Action::UPDATE => seq![85u8, 80, 68, 65, 84, 69],
            Action::DEL => seq![68u8, 69, 76],
            Action::HEYA => seq![72u8, 69, 89, 65],
            Action::EXISTS => seq![69u8, 88, 73, 83, 84, 83],
            Action::MSET => seq![77u8, 83, 69, 84],
            Action::MGET => seq![77u8, 71, 69, 84],
            Action::MUPDATE => seq![77u8, 85, 80, 68, 65, 84, 69],
            Action::SSET => seq![83u8, 83, 69, 84],
            Action::SDEL => seq![83u8, 68, 69, 76],
            Action::SUPDATE => seq![83u8, 85, 80, 68, 65, 84, 69],
            Action::DBSIZE => seq![68u8, 66, 83, 73, 90, 69],
            Action::FLUSHDB => seq![70u8, 76, 85, 83, 72, 68, 66],
            Action::USET => seq![85u8, 83, 69, 84],
            Action::KEYLEN => seq![75u8, 69, 89, 76, 69, 78],
            Action::MKSNAP => seq![77u8, 75, 83, 78, 65, 80],
            Action::LSKEYS => seq![76u8, 83, 75, 69, 89, 83],
            Action::POP => seq![80u8, 79, 80],
            Action::CREATE => seq![67u8, 82, 69, 65, 84, 69],
            Action::DROP => seq![68u8, 82, 79, 80],
            Action::USE => seq![85u8, 83, 69],
            Action::INSPECT => seq![73u8, 78, 83, 80, 69, 67, 84],
            Action::MPOP => seq![77u8, 80, 79, 80],
        }
    }

    /// The name of the action on the wire: upper-case ASCII.
    pub fn tag(self) -> (t: &'static [u8])
        ensures
            t@ == self.spec_tag(),
    {
        let t: &'static [u8] = match self {
            Action::GET => &[71u8, 69, 84],
            Action::SET => &[83u8, 69, 84],
            Action::UPDATE => &[85u8, 80, 68, 65, 84, 69],
            Action::DEL => &[68u8, 69, 76],
            Action::HEYA => &[72u8, 69, 89, 65],
            Action::EXISTS => &[69u8, 88, 73, 83, 84, 83],
            Action::MSET => &[77u8, 83, 69, 84],
            Action::MGET => &[77u8, 71, 69, 84],
            Action::MUPDATE => &[77u8, 85, 80, 68, 65, 84, 69],
            Action::SSET => &[83u8, 83, 69, 84],
            Action::SDEL => &[83u8, 68, 69, 76],
            Action::SUPDATE => &[83u8, 85, 80, 68, 65, 84, 69],
            Action::DBSIZE => &[68u8, 66, 83, 73, 90, 69],
            Action::FLUSHDB => &[70u8, 76, 85, 83, 72, 68, 66],
            Action::USET => &[85u8, 83, 69, 84],
            Action::KEYLEN => &[75u8, 69, 89, 76, 69, 78],
            Action::MKSNAP => &[77u8, 75, 83, 78, 65, 80],
            Action::LSKEYS => &[76u8, 83, 75, 69, 89, 83],
            Action::POP => &[80u8, 79, 80],
            Action::CREATE => &[67u8, 82, 69, 65, 84, 69],
            Action::DROP => &[68u8, 82, 79, 80],
            Action::USE => &[85u8, 83, 69],
            Action::INSPECT => &[73u8, 78, 83, 80, 69, 67, 84],
            Action::MPOP => &[77u8, 80, 79, 80],
        };
        assert(t@ =~= self.spec_tag());
        t
    }
}

/// The upper-case form of an ASCII letter, and any other byte as it is.
pub open spec fn upper_byte(b: u8) -> u8 {
    if 97 <= b <= 122 {
        (b - 32) as u8
    } else {
        b
    }
}

/// `s` with its ASCII letters in upper case.
pub open spec fn uppercased(s: Seq<u8>) -> Seq<u8> {
    Seq::new(s.len(), |i: int| upper_byte(s[i]))
}

/// The action that `verb` names, letter case apart, if it names one.
pub open spec fn names_action(verb: Seq<u8>, action: Action) -> bool {
    uppercased(verb) == action.spec_tag()
}

/// A copy of `verb` with its ASCII letters in upper case.
pub fn to_ascii_uppercase(verb: &[u8]) -> (upper: Vec<u8>)
    ensures
        upper@ == uppercased(verb@),
{
    let mut upper: Vec<u8> = Vec::with_capacity(verb.len());
    let mut i: usize = 0;
    while i < verb.len()
        invariant
            i <= verb.len(),
            upper@ == uppercased(verb@.take(i as int)),
        decreases verb.len() - i,
    {
        let b: u8 = verb[i];
        upper.push(if 97 <= b && b <= 122 { b - 32 } else { b });
        proof {
            assert(upper@ =~= uppercased(verb@.take(i + 1)));
        }
        i += 1;
    }
    proof {
        assert(verb@.take(i as int) =~= verb@);
    }
    upper
}

/// Whether two slices hold the same bytes.
pub fn same_bytes(a: &[u8], b: &[u8]) -> (same: bool)
    ensures
        same == (a@ == b@),
{
    if a.len() != b.len() {
        return false;
    }
    let mut i: usize = 0;
    while i < a.len()
        invariant
            i <= a.len(),
            a.len() == b.len(),
            a@.take(i as int) == b@.take(i as int),
        decreases a.len() - i,
    {
        if a[i] != b[i] {
            return false;
        }
        proof {
            assert(a@.take(i + 1) =~= a@.take(i as int).push(a@[i as int]));
            assert(b@.take(i + 1) =~= b@.take(i as int).push(b@[i as int]));
        }
        i += 1;
    }
    proof {
        assert(a@.take(i as int) =~= a@);
        assert(b@.take(i as int) =~= b@);
    }
    true
}

/// The action that `verb` names, letter case apart, or `None` where it
/// names none.
pub fn lookup_action(verb: &[u8]) -> (r: Option<Action>)
    ensures
        match r {
            Some(action) => names_action(verb@, action),
            None => forall|action: Action| !names_action(verb@, action),
        },
{
    let upper: Vec<u8> = to_ascii_uppercase(verb);
    if same_bytes(upper.as_slice(), Action::GET.tag()) {
        Some(Action::GET)
    } else if same_bytes(upper.as_slice(), Action::SET.tag()) {
        Some(Action::SET)
    } else if same_bytes(upper.as_slice(), Action::UPDATE.tag()) {
        Some(Action::UPDATE)
    } else if same_bytes(upper.as_slice(), Action::DEL.tag()) {
        Some(Action::DEL)
    } else if same_bytes(upper.as_slice(), Action::HEYA.tag()) {
        Some(Action::HEYA)
    } else if same_bytes(upper.as_slice(), Action::EXISTS.tag()) {
        Some(Action::EXISTS)
    } else if same_bytes(upper.as_slice(), Action::MSET.tag()) {
        Some(Action::MSET)
    } else if same_bytes(upper.as_slice(), Action::MGET.tag()) {
        Some(Action::MGET)
    } else if same_bytes(upper.as_slice(), Action::MUPDATE.tag()) {
        Some(Action::MUPDATE)
    } else if same_bytes(upper.as_slice(), Action::SSET.tag()) {
        Some(Action::SSET)
    } else if same_bytes(upper.as_slice(), Action::SDEL.tag()) {
        Some(Action::SDEL)
    } else if same_bytes(upper.as_slice(), Action::SUPDATE.tag()) {
        Some(Action::SUPDATE)
    } else if same_bytes(upper.as_slice(), Action::DBSIZE.tag()) {
        Some(Action::DBSIZE)
    } else if same_bytes(upper.as_slice(), Action::FLUSHDB.tag()) {
        Some(Action::FLUSHDB)
    } else if same_bytes(upper.as_slice(), Action::USET.tag()) {
        Some(Action::USET)
    } else if same_bytes(upper.as_slice(), Action::KEYLEN.tag()) {
        Some(Action::KEYLEN)
    } else if same_bytes(upper.as_slice(), Action::MKSNAP.tag()) {
        Some(Action::MKSNAP)
    } else if same_bytes(upper.as_slice(), Action::LSKEYS.tag()) {
        Some(Action::LSKEYS)
    } else if same_bytes(upper.as_slice(), Action::POP.tag()) {
        Some(Action::POP)
    } else if same_bytes(upper.as_slice(), Action::CREATE.tag()) {
        Some(Action::CREATE)
    } else if same_bytes(upper.as_slice(), Action::DROP.tag()) {
        Some(Action::DROP)
    } else if same_bytes(upper.as_slice(), Action::USE.tag()) {
        Some(Action::USE)
    } else if same_bytes(upper.as_slice(), Action::INSPECT.tag()) {
        Some(Action::INSPECT)
    } else if same_bytes(upper.as_slice(), Action::MPOP.tag()) {
        Some(Action::MPOP)
    } else {
        None
    }
}

/// No two actions share a name, so a verb names one action at most.
pub proof fn lemma_tags_are_distinct(a: Action, b: Action)
    requires
        a.spec_tag() == b.spec_tag(),
    ensures
        a == b,
{
    let ta = a.spec_tag();
    let tb = b.spec_tag();
    assert(ta.len() == tb.len());
    assert(ta[0] == tb[0]);
    assert(ta[1] == tb[1]);
    assert(ta[2] == tb[2]);
    if ta.len() > 3 {
        assert(ta[3] == tb[3]);
    }
}

/// Every action is found under its own name, in upper or lower case.
pub proof fn lemma_tag_names_its_action(action: Action)
    ensures
        names_action(action.spec_tag(), action),
        uppercased(action.spec_tag()) == action.spec_tag(),
{
    assert(uppercased(action.spec_tag()) =~= action.spec_tag());
}

/// What to do with a query, by its first item.
#[derive(Debug, Clone, Copy, PartialEq, Eq)]
pub enum Dispatch {
    /// The query has no items: answer with a packet error.
    PacketError,
    /// The first item names no action: answer that the action is unknown.
    UnknownAction,
    /// Run this action on the items that follow.
    Run(Action),
}

/// What the first item of a query, if there is one, asks for.
pub open spec fn spec_dispatch(first: Option<Seq<u8>>, r: Dispatch) -> bool {
    match first {
        None => r == Dispatch::PacketError,
        Some(verb) => match r {
            Dispatch::Run(action) => names_action(verb, action),
            Dispatch::UnknownAction => forall|action: Action| !names_action(verb, action),
            Dispatch::PacketError => false,
        },
    }
}

/// Decides what to do with a query whose first item is `first`: run the
/// action it names, or report that it names none or that it is missing.
pub fn dispatch_on(first: Option<&[u8]>) -> (r: Dispatch)
    ensures
        spec_dispatch(
            match first {
                Some(verb) => Some(verb@),
                None => None,
            },
            r,
        ),
{
    match first {
        None => Dispatch::PacketError,
        Some(verb) => match lookup_action(verb) {
            Some(action) => Dispatch::Run(action),
            None => Dispatch::UnknownAction,
        },
    }
}

/// Decides what to do with a query by the first of its items.
pub fn dispatch(first: Option<&Bytes>) -> (r: Dispatch)
    ensures
        spec_dispatch(
            match first {
                Some(verb) => Some(bytes_contents(*verb)),
                None => None,
            },
            r,
        ),
{
    match first {
        None => dispatch_on(None),
        Some(verb) => dispatch_on(Some(bytes_as_slice(verb))),
    }
}

} // verus!
