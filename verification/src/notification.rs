//! The notification record, the small protocol enums, and the defensive
//! decoding of caller-supplied hints and action lists.

use vstd::prelude::*;

verus! {

/// Priority tier of a notification. Critical notifications are exempt from
/// auto-expiry and from the transient rule.
#[derive(Debug, Clone, Copy, PartialEq, Eq, Structural)]
pub enum Urgency {
    Low,
    Normal,
    Critical,
}

/// Why a notification was closed, as reported in the outbound closed signal.
#[derive(Debug, Clone, Copy, PartialEq, Eq, Structural)]
pub enum CloseReason {
    Expired,
    Dismissed,
    ByApi,
}

impl CloseReason {
    /// The protocol-level reason code: 1 = expired, 2 = dismissed by the
    /// user, 3 = closed through the api.
    pub fn code(&self) -> (c: u32)
        ensures
            c == self.spec_code(),
            1 <= c <= 3,
    {
        match self {
            CloseReason::Expired => 1,
            CloseReason::Dismissed => 2,
            CloseReason::ByApi => 3,
        }
    }

    pub open spec fn spec_code(self) -> u32 {
        match self {
            CloseReason::Expired => 1,
            CloseReason::Dismissed => 2,
            CloseReason::ByApi => 3,
        }
    }
}

/// A typed hint value, decoded at the protocol boundary from the dynamic
/// key/value map a caller sends. Only byte and boolean hints carry meaning
/// for this daemon; everything else is kept as `Other` and falls back to
/// the documented defaults.
#[derive(Debug)]
pub enum HintValue {
    Byte(u8),
    Bool(bool),
    Text(String),
    Other,
}

/// One notification as the daemon retains it. The timestamp is the capture
/// time in milliseconds since the Unix epoch, in the machine's local clock.
#[derive(Debug)]
pub struct Notification {
    pub id: u32,
    pub app_name: String,
    pub app_icon: String,
    pub summary: String,
    pub body: String,
    pub actions: Vec<(String, String)>,
    pub urgency: Urgency,
    pub expire_timeout: i32,
    pub timestamp: i64,
    pub transient: bool,
}

/// The mathematical content of a [`Notification`]: every field as a plain
/// value, with strings as character sequences.
#[verifier::ext_equal]
pub struct NotificationView {
    pub id: u32,
    pub app_name: Seq<char>,
    pub app_icon: Seq<char>,
    pub summary: Seq<char>,
    pub body: Seq<char>,
    pub actions: Seq<(Seq<char>, Seq<char>)>,
    pub urgency: Urgency,
    pub expire_timeout: i32,
    pub timestamp: i64,
    pub transient: bool,
}

impl View for Notification {
    type V = NotificationView;

    open spec fn view(&self) -> NotificationView {
        NotificationView {
            id: self.id,
            app_name: self.app_name@,
            app_icon: self.app_icon@,
            summary: self.summary@,
            body: self.body@,
            actions: self.actions@.map_values(|p: (String, String)| (p.0@, p.1@)),
            urgency: self.urgency,
            expire_timeout: self.expire_timeout,
            timestamp: self.timestamp,
            transient: self.transient,
        }
    }
}

impl Clone for Notification {
    /// A clone carries exactly the same content.
    fn clone(&self) -> (res: Self)
        ensures
            res@ == self@,
    {
        let mut actions: Vec<(String, String)> = Vec::new();
        let mut i: usize = 0;
        while i < self.actions.len()
            invariant
                i <= self.actions@.len(),
                actions@.len() == i,
                forall|j: int|
                    0 <= j < i ==> actions@[j].0@ == self.actions@[j].0@ && actions@[j].1@
                        == self.actions@[j].1@,
            decreases self.actions@.len() - i,
        {
            let pair = (self.actions[i].0.clone(), self.actions[i].1.clone());
            actions.push(pair);
            i = i + 1;
        }
        let ghost pair_view = |p: (String, String)| (p.0@, p.1@);
        proof {
            assert(actions@.map_values(pair_view) =~= self.actions@.map_values(pair_view));
        }
        let res = Notification {
            id: self.id,
            app_name: self.app_name.clone(),
            app_icon: self.app_icon.clone(),
            summary: self.summary.clone(),
            body: self.body.clone(),
            actions,
            urgency: self.urgency,
            expire_timeout: self.expire_timeout,
            timestamp: self.timestamp,
            transient: self.transient,
        };
        proof {
            assert(res@ =~= self@);
        }
        res
    }
}

/// A domain event: the validated outcome of a protocol call, as handed to
/// the service that owns the retained list.
#[derive(Debug)]
pub enum NotificationEvent {
    Notify(Notification),
    Closed(u32, CloseReason),
}

/// The first hint with the given key, if any.
pub open spec fn spec_find_hint(hints: Seq<(String, HintValue)>, key: Seq<char>) -> Option<
    HintValue,
>
    decreases hints.len(),
{
    if hints.len() == 0 {
        None
    } else if hints[0].0@ == key {
        Some(hints[0].1)
    } else {
        spec_find_hint(hints.skip(1), key)
    }
}

/// How a byte-valued urgency hint is read: 0 is low, 2 is critical, and
/// anything else (including absence or a wrongly-typed hint) is normal.
pub open spec fn spec_urgency_of_byte(b: u8) -> Urgency {
    if b == 0 {
        Urgency::Low
    } else if b == 2 {
        Urgency::Critical
    } else {
        Urgency::Normal
    }
}

/// The urgency a hint map carries.
pub open spec fn spec_urgency_from_hints(hints: Seq<(String, HintValue)>) -> Urgency {
    match spec_find_hint(hints, "urgency"@) {
        Some(HintValue::Byte(b)) => spec_urgency_of_byte(b),
        _ => Urgency::Normal,
    }
}

/// The transient flag a hint map carries: a boolean `transient` hint, or
/// false on absence or a wrongly-typed hint.
pub open spec fn spec_transient_from_hints(hints: Seq<(String, HintValue)>) -> bool {
    match spec_find_hint(hints, "transient"@) {
        Some(HintValue::Bool(b)) => b,
        _ => false,
    }
}

/// Decode the urgency hint defensively: absent or oddly-typed hints mean
/// normal urgency.
pub fn urgency_from_hints(hints: &Vec<(String, HintValue)>) -> (u: Urgency)
    ensures
        u == spec_urgency_from_hints(hints@),
{
    let key: String = String::from_str("urgency");
    let mut i: usize = 0;
    proof {
        assert(hints@.skip(0) =~= hints@);
    }
    while i < hints.len()
        invariant
            i <= hints@.len(),
            key@ == "urgency"@,
            spec_find_hint(hints@, "urgency"@) == spec_find_hint(
                hints@.skip(i as int),
                "urgency"@,
            ),
            forall|j: int| 0 <= j < i ==> hints@[j].0@ != "urgency"@,
        decreases hints@.len() - i,
    {
        proof {
            assert(hints@.skip(i as int).skip(1) =~= hints@.skip(i + 1));
        }
        if hints[i].0 == key {
            match &hints[i].1 {
                HintValue::Byte(b) => {
                    let bv: u8 = *b;
                    if bv == 0 {
                        return Urgency::Low;
                    } else if bv == 2 {
                        return Urgency::Critical;
                    } else {
                        return Urgency::Normal;
                    }
                },
                _ => {
                    return Urgency::Normal;
                },
            }
        }
        i = i + 1;
    }
    Urgency::Normal
}

/// Decode the transient hint defensively: absent or oddly-typed hints mean
/// not transient.
pub fn transient_from_hints(hints: &Vec<(String, HintValue)>) -> (t: bool)
    ensures
        t == spec_transient_from_hints(hints@),
{
    let key: String = String::from_str("transient");
    let mut i: usize = 0;
    proof {
        assert(hints@.skip(0) =~= hints@);
    }
    while i < hints.len()
        invariant
            i <= hints@.len(),
            key@ == "transient"@,
            spec_find_hint(hints@, "transient"@) == spec_find_hint(
                hints@.skip(i as int),
                "transient"@,
            ),
        decreases hints@.len() - i,
    {
        proof {
            assert(hints@.skip(i as int).skip(1) =~= hints@.skip(i + 1));
        }
        if hints[i].0 == key {
            match &hints[i].1 {
                HintValue::Bool(b) => {
                    return *b;
                },
                _ => {
                    return false;
                },
            }
        }
        i = i + 1;
    }
    false
}

/// A flat action list read two at a time as (key, label) pairs; a trailing
/// unpaired element is dropped.
pub open spec fn spec_pair_actions(actions: Seq<String>) -> Seq<(String, String)>
    decreases actions.len(),
{
    if actions.len() < 2 {
        Seq::empty()
    } else {
        seq![(actions[0], actions[1])] + spec_pair_actions(actions.skip(2))
    }
}

/// Pair a flat action list into (key, label) tuples, dropping a trailing
/// unpaired element.
pub fn pair_actions(actions: &Vec<String>) -> (pairs: Vec<(String, String)>)
    ensures
        pairs@ == spec_pair_actions(actions@),
{
    let mut pairs: Vec<(String, String)> = Vec::new();
    let mut i: usize = 0;
    proof {
        assert(actions@.skip(0) =~= actions@);
        assert(pairs@ + spec_pair_actions(actions@) =~= spec_pair_actions(actions@));
    }
    while i + 1 < actions.len()
        invariant
            i <= actions@.len(),
            i % 2 == 0,
            pairs@ + spec_pair_actions(actions@.skip(i as int)) == spec_pair_actions(actions@),
        decreases actions@.len() - i,
    {
        let ghost rest = actions@.skip(i as int);
        proof {
            assert(rest.len() >= 2);
            assert(rest[0] == actions@[i as int]);
            assert(rest[1] == actions@[i + 1]);
            assert(rest.skip(2) =~= actions@.skip(i + 2));
        }
        let pair = (actions[i].clone(), actions[i + 1].clone());
        assert(pair == (actions@[i as int], actions@[i + 1]));
        pairs.push(pair);
        proof {
            assert(pairs@ + spec_pair_actions(actions@.skip(i + 2)) =~= spec_pair_actions(
                actions@,
            ));
        }
        i = i + 2;
    }
    proof {
        assert(spec_pair_actions(actions@.skip(i as int)) =~= Seq::<(String, String)>::empty());
        assert(pairs@ + Seq::<(String, String)>::empty() =~= pairs@);
    }
    pairs
}

} // verus!
