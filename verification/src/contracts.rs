//! The wire record: one compact JSON object per event.

use vstd::prelude::*;
use crate::event::{level_name, LogEvent, LogEventView};

verus! {

/// The error of the JSON encoder.
#[verifier::external_type_specification]
#[verifier::external_body]
pub struct ExJsonError(serde_json::Error);

/// The JSON string literal for `text`, quotes and escapes included, as the
/// encoder writes it.
pub uninterp spec fn json_text(text: Seq<char>) -> Seq<u8>;

/// The RFC 3339 text, in UTC and with six fractional digits, of the moment
/// that lies `micros` microseconds after 1970-01-01T00:00:00 UTC; `None`
/// where the calendar in use cannot hold that moment.
pub uninterp spec fn rfc3339_text(micros: int) -> Option<Seq<char>>;

/// Calls `serde_json::to_vec` on a string.
///
/// Not proved: that the call succeeds on every string, since the encoder
/// fails only where its writer does and a vector takes every byte; and that
/// the bytes depend on the characters of `text` alone. `json_text` is the
/// name of that dependence.
#[verifier::external_body]
fn json_string(text: &str) -> (encoded: Result<Vec<u8>, serde_json::Error>)
    ensures
        encoded is Ok,
        encoded matches Ok(bytes) ==> bytes@ == json_text(text@),
{
    serde_json::to_vec(text)
}

/// Calls `chrono::DateTime::from_timestamp_micros`, and on the moment it
/// gives `chrono::DateTime::to_rfc3339_opts` with microseconds and a numeric
/// offset.
///
/// Not proved: that what comes back, text or nothing, depends on `micros`
/// alone. `rfc3339_text` is the name of that dependence.
#[verifier::external_body]
fn rfc3339(micros: i64) -> (text: Option<String>)
    ensures
        match text {
            Some(text) => rfc3339_text(micros as int) == Some(text@),
            None => rfc3339_text(micros as int) is None,
        },
{
    match chrono::DateTime::from_timestamp_micros(micros) {
        Some(moment) => Some(moment.to_rfc3339_opts(chrono::SecondsFormat::Micros, false)),
        None => None,
    }
}

/// The byte `{`.
pub const OBJECT_OPENS: u8 = 123;

/// The byte `}`.
pub const OBJECT_CLOSES: u8 = 125;

/// The byte `:`.
pub const NAME_ENDS: u8 = 58;

/// The byte `,`.
pub const MEMBER_ENDS: u8 = 44;

/// One member of a JSON object, name and value already encoded.
pub type Member = (Seq<u8>, Seq<u8>);

/// The members of an object, each as `name:value`, with `,` between them.
pub open spec fn joined(members: Seq<Member>) -> Seq<u8>
    decreases members.len(),
{
    if members.len() == 0 {
        Seq::empty()
    } else if members.len() == 1 {
        members[0].0 + seq![NAME_ENDS] + members[0].1
    } else {
        joined(members.drop_last()) + seq![MEMBER_ENDS] + members.last().0 + seq![NAME_ENDS]
            + members.last().1
    }
}

/// The compact JSON object with these members, in this order.
pub open spec fn framed(members: Seq<Member>) -> Seq<u8> {
    seq![OBJECT_OPENS] + joined(members) + seq![OBJECT_CLOSES]
}

/// The encoded members as mathematical values.
pub open spec fn member_views(members: Seq<(Vec<u8>, Vec<u8>)>) -> Seq<Member> {
    Seq::new(members.len(), |i: int| (members[i].0@, members[i].1@))
}

/// Appends `bytes` to `out`.
fn append_bytes(out: &mut Vec<u8>, bytes: &Vec<u8>)
    ensures
        final(out)@ == old(out)@ + bytes@,
{
    let mut i: usize = 0;
    while i < bytes.len()
        invariant
            i <= bytes@.len(),
            out@ == old(out)@ + bytes@.take(i as int),
        decreases bytes@.len() - i,
    {
        out.push(bytes[i]);
        i += 1;
        assert(bytes@.take(i as int) =~= bytes@.take(i - 1).push(bytes@[i - 1]));
        assert(out@ =~= old(out)@ + bytes@.take(i as int));
    }
    assert(bytes@.take(i as int) =~= bytes@);
}

/// Writes the compact JSON object whose members, already encoded, are
/// `members`.
pub fn frame_object(members: &Vec<(Vec<u8>, Vec<u8>)>) -> (bytes: Vec<u8>)
    ensures
        bytes@ == framed(member_views(members@)),
{
    let ghost all = member_views(members@);
    let mut bytes: Vec<u8> = Vec::new();
    bytes.push(OBJECT_OPENS);
    let mut i: usize = 0;
    while i < members.len()
        invariant
            i <= members@.len(),
            all == member_views(members@),
            bytes@ == seq![OBJECT_OPENS] + joined(all.take(i as int)),
        decreases members@.len() - i,
    {
        if i > 0 {
            bytes.push(MEMBER_ENDS);
        }
        append_bytes(&mut bytes, &members[i].0);
        bytes.push(NAME_ENDS);
        append_bytes(&mut bytes, &members[i].1);
        proof {
            let longer = all.take(i + 1);
            assert(longer.drop_last() =~= all.take(i as int));
            assert(longer.last() == all[i as int]);
            assert(all[i as int] == (members@[i as int].0@, members@[i as int].1@));
            assert(bytes@ =~= seq![OBJECT_OPENS] + joined(longer));
        }
        i += 1;
    }
    assert(all.take(i as int) =~= all);
    bytes.push(OBJECT_CLOSES);
    bytes
}

/// Why an event could not be encoded.
#[derive(Clone, Copy, Debug, PartialEq, Eq, Structural)]
pub enum EncodeError {
    /// The calendar cannot hold the event's moment.
    Timestamp,
}

/// One event in the shape in which it is sent.
#[derive(Clone, Debug, PartialEq, Eq)]
pub struct LogDataContract<'s> {
    /// Sent as `@l`.
    pub level: &'s str,
    /// Sent as `@t`.
    pub date: String,
    /// Sent as `App`.
    pub app: &'s str,
    /// Sent as `Process`.
    pub process: String,
    /// Sent as `Message`.
    pub message: String,
    /// Sent as `Context`, unless it is missing or empty.
    pub context: Option<String>,
}

/// A wire record as mathematical values.
pub struct LogDataContractView {
    pub level: Seq<char>,
    pub date: Seq<char>,
    pub app: Seq<char>,
    pub process: Seq<char>,
    pub message: Seq<char>,
    pub context: Option<Seq<char>>,
}

impl<'s> View for LogDataContract<'s> {
    type V = LogDataContractView;

    open spec fn view(&self) -> LogDataContractView {
        LogDataContractView {
            level: self.level@,
            date: self.date@,
            app: self.app@,
            process: self.process@,
            message: self.message@,
            context: match self.context {
                Some(text) => Some(text@),
                None => None,
            },
        }
    }
}

/// The wire record of `event`, sent on behalf of the application `app`;
/// `None` where the event's moment has no text.
pub open spec fn record_from(app: Seq<char>, event: LogEventView) -> Option<LogDataContractView> {
    match rfc3339_text(event.dt) {
        Some(date) => Some(
            LogDataContractView {
                level: level_name(event.level),
                date,
                app,
                process: event.process,
                message: event.message,
                context: event.context,
            },
        ),
        None => None,
    }
}

/// A member of a JSON object before it is encoded: name and value.
pub type TextMember = (Seq<char>, Seq<char>);

/// The members of a wire record, in the order in which they are written.
/// The context is left out where it is missing or empty.
pub open spec fn members_of(record: LogDataContractView) -> Seq<TextMember> {
    let fixed = seq![
        ("@l"@, record.level),
        ("@t"@, record.date),
        ("App"@, record.app),
        ("Process"@, record.process),
        ("Message"@, record.message),
    ];
    match record.context {
        Some(context) => if context.len() > 0 {
            fixed.push(("Context"@, context))
        } else {
            fixed
        },
        None => fixed,
    }
}

/// The members with name and value encoded.
pub open spec fn encoded_members(members: Seq<TextMember>) -> Seq<Member> {
    Seq::new(members.len(), |i: int| (json_text(members[i].0), json_text(members[i].1)))
}

/// The compact JSON object with these members.
pub open spec fn object_text(members: Seq<TextMember>) -> Seq<u8> {
    framed(encoded_members(members))
}

/// The names and values as mathematical values.
pub open spec fn text_members(members: Seq<(&str, &str)>) -> Seq<TextMember> {
    Seq::new(members.len(), |i: int| (members[i].0@, members[i].1@))
}

/// The bytes of one wire record; none where the event's moment has no
/// text.
pub open spec fn record_text(app: Seq<char>, event: LogEventView) -> Result<
    Seq<u8>,
    EncodeError,
> {
    match record_from(app, event) {
        None => Err(EncodeError::Timestamp),
        Some(record) => Ok(object_text(members_of(record))),
    }
}

/// Encodes an object with string members.
pub fn encode_object(members: &Vec<(&str, &str)>) -> (bytes: Vec<u8>)
    ensures
        bytes@ == object_text(text_members(members@)),
{
    let ghost texts = text_members(members@);
    let mut encoded: Vec<(Vec<u8>, Vec<u8>)> = Vec::new();
    let mut i: usize = 0;
    while i < members.len()
        invariant
            i <= members@.len(),
            texts == text_members(members@),
            encoded@.len() == i,
            member_views(encoded@) =~= encoded_members(texts.take(i as int)),
        decreases members@.len() - i,
    {
        assert(texts[i as int] == (members@[i as int].0@, members@[i as int].1@));
        let name = json_string(members[i].0).ok().unwrap();
        let value = json_string(members[i].1).ok().unwrap();
        let ghost before = encoded@;
        encoded.push((name, value));
        proof {
            let shorter = texts.take(i as int);
            let longer = texts.take(i + 1);
            assert forall|j: int| 0 <= j < i + 1 implies member_views(encoded@)[j]
                == encoded_members(longer)[j] by {
                if j < i {
                    assert(encoded@[j] == before[j]);
                    assert(member_views(before)[j] == encoded_members(shorter)[j]);
                    assert(longer[j] == shorter[j]);
                }
            }
            assert(member_views(encoded@) =~= encoded_members(longer));
        }
        i += 1;
    }
    assert(texts.take(i as int) =~= texts);
    frame_object(&encoded)
}

impl<'s> LogDataContract<'s> {
    /// The wire record of `src`, sent on behalf of the application `app`.
    ///
    /// Fails exactly where the event's moment has no text.
    pub fn from(app: &'s str, src: LogEvent) -> (record: Result<Self, EncodeError>)
        ensures
            match record {
                Ok(record) => record_from(app@, src@) == Some(record@),
                Err(error) => error == EncodeError::Timestamp && record_from(app@, src@) is None,
            },
    {
        match rfc3339(src.dt) {
            Some(date) => Ok(
                Self {
                    level: src.level.to_string(),
                    app,
                    context: src.context,
                    date,
                    message: src.message,
                    process: src.process,
                },
            ),
            None => Err(EncodeError::Timestamp),
        }
    }

    /// The record as one compact JSON object.
    pub fn to_json(&self) -> (bytes: Vec<u8>)
        ensures
            bytes@ == object_text(members_of(self@)),
    {
        let mut members: Vec<(&str, &str)> = Vec::new();
        members.push(("@l", self.level));
        members.push(("@t", self.date.as_str()));
        members.push(("App", self.app));
        members.push(("Process", self.process.as_str()));
        members.push(("Message", self.message.as_str()));
        match &self.context {
            Some(context) => {
                if context.as_str().unicode_len() > 0 {
                    members.push(("Context", context.as_str()));
                }
            },
            None => {},
        }
        assert(text_members(members@) =~= members_of(self@));
        encode_object(&members)
    }
}

} // verus!
