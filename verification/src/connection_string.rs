//! The connection descriptor: either a bare URL, or `key=value` items
//! separated by `;`.

use vstd::prelude::*;
use crate::text::{
    chars_of, find_from, first_index, lemma_first_index, lowered, parse_decimal, parse_number,
    reads_as,
};

verus! {

/// Events per batch where the descriptor names no other number.
pub const DEFAULT_FLUSH_CHUNK: usize = 50;

/// Seconds to sleep on an empty buffer where the descriptor names no other
/// number.
pub const DEFAULT_FLUSH_SLEEP: u64 = 1;

/// Why a descriptor was turned down. Items are counted from zero.
#[derive(Clone, Copy, Debug, PartialEq, Eq, Structural)]
pub enum ConfigError {
    /// The item at this position holds no `=`.
    MissingSeparator { item: usize },
    /// The key of the item at this position is none of the known ones.
    UnknownKey { item: usize },
    /// The batch size at this position is no positive number.
    InvalidFlushLogsChunk { item: usize },
    /// The flush delay at this position is no positive number.
    InvalidFlushDelay { item: usize },
    /// No item names the endpoint.
    MissingUrl,
}

/// The settings that a descriptor can name.
#[derive(Clone, Copy, Debug, PartialEq, Eq, Structural)]
pub enum SettingKey {
    Url,
    ApiKey,
    FlushLogsChunk,
    FlushDelay,
}

/// What a descriptor says.
#[derive(Clone, Debug, PartialEq, Eq)]
pub struct ConnectionSettings {
    pub url: Option<String>,
    pub api_key: Option<String>,
    pub max_logs_flush_chunk: usize,
    /// In seconds.
    pub flush_delay: u64,
}

/// What a descriptor says, as mathematical values.
pub struct SettingsView {
    pub url: Option<Seq<char>>,
    pub api_key: Option<Seq<char>>,
    pub max_logs_flush_chunk: nat,
    pub flush_delay: nat,
}

/// The view of an optional text.
pub open spec fn text_view(text: Option<String>) -> Option<Seq<char>> {
    match text {
        Some(text) => Some(text@),
        None => None,
    }
}

impl View for ConnectionSettings {
    type V = SettingsView;

    open spec fn view(&self) -> SettingsView {
        SettingsView {
            url: text_view(self.url),
            api_key: text_view(self.api_key),
            max_logs_flush_chunk: self.max_logs_flush_chunk as nat,
            flush_delay: self.flush_delay as nat,
        }
    }
}

/// The settings of a descriptor that names nothing.
pub open spec fn default_settings() -> SettingsView {
    SettingsView {
        url: None,
        api_key: None,
        max_logs_flush_chunk: DEFAULT_FLUSH_CHUNK as nat,
        flush_delay: DEFAULT_FLUSH_SLEEP as nat,
    }
}

/// Whether a descriptor is a bare URL: it begins with `http`, in any letter
/// case.
pub open spec fn looks_like_url(text: Seq<char>) -> bool {
    text.len() >= 4 && lowered(text.take(4)) == "http"@
}

/// The items of a descriptor: the pieces between its `;`.
pub open spec fn split_items(text: Seq<char>) -> Seq<Seq<char>>
    decreases text.len(),
{
    let cut = first_index(text, ';');
    if 0 <= cut < text.len() {
        seq![text.take(cut)] + split_items(text.skip(cut + 1))
    } else {
        seq![text]
    }
}

/// The key of an item: what stands before its first `=`.
pub open spec fn key_part(item: Seq<char>) -> Seq<char> {
    item.take(first_index(item, '='))
}

/// The value of an item: what stands behind its first `=`.
pub open spec fn value_part(item: Seq<char>) -> Seq<char> {
    item.skip(first_index(item, '=') + 1)
}

/// The setting that a key names, whatever its letter case.
pub open spec fn setting_key(name: Seq<char>) -> Option<SettingKey> {
    let lower = lowered(name);
    if lower == "url"@ {
        Some(SettingKey::Url)
    } else if lower == "apikey"@ {
        Some(SettingKey::ApiKey)
    } else if lower == "flushlogschunk"@ {
        Some(SettingKey::FlushLogsChunk)
    } else if lower == "flushdelay"@ {
        Some(SettingKey::FlushDelay)
    } else {
        None
    }
}

/// The positive number that `text` stands for, if it is one of at most
/// `limit`.
pub open spec fn positive_number(text: Seq<char>, limit: nat) -> Option<nat> {
    match parse_number(text, limit) {
        Some(n) => if n >= 1 {
            Some(n)
        } else {
            None
        },
        None => None,
    }
}

/// `settings` after the item at position `index` was read, or why that
/// item was turned down.
pub open spec fn apply_item(settings: SettingsView, item: Seq<char>, index: int) -> Result<
    SettingsView,
    ConfigError,
> {
    if !item.contains('=') {
        Err(ConfigError::MissingSeparator { item: index as usize })
    } else {
        match setting_key(key_part(item)) {
            None => Err(ConfigError::UnknownKey { item: index as usize }),
            Some(SettingKey::Url) => Ok(SettingsView { url: Some(value_part(item)), ..settings }),
            Some(SettingKey::ApiKey) => Ok(
                SettingsView { api_key: Some(value_part(item)), ..settings },
            ),
            Some(SettingKey::FlushLogsChunk) => match positive_number(
                value_part(item),
                usize::MAX as nat,
            ) {
                Some(n) => Ok(SettingsView { max_logs_flush_chunk: n, ..settings }),
                None => Err(ConfigError::InvalidFlushLogsChunk { item: index as usize }),
            },
            Some(SettingKey::FlushDelay) => match positive_number(
                value_part(item),
                u64::MAX as nat,
            ) {
                Some(n) => Ok(SettingsView { flush_delay: n, ..settings }),
                None => Err(ConfigError::InvalidFlushDelay { item: index as usize }),
            },
        }
    }
}

/// `settings` after `items` were read in order, the first of them standing
/// at position `index`; or why the first bad item was turned down.
pub open spec fn apply_items(settings: SettingsView, items: Seq<Seq<char>>, index: int) -> Result<
    SettingsView,
    ConfigError,
>
    decreases items.len(),
{
    if items.len() == 0 {
        Ok(settings)
    } else {
        match apply_item(settings, items[0], index) {
            Err(error) => Err(error),
            Ok(next) => apply_items(next, items.drop_first(), index + 1),
        }
    }
}

/// What the descriptor `text` resolves to.
///
/// A bare URL is the endpoint itself, with no credential and the default
/// numbers. Anything else is read item by item; a later item overrides an
/// earlier one of the same key, and the endpoint must be named.
pub open spec fn resolve(text: Seq<char>) -> Result<SettingsView, ConfigError> {
    if looks_like_url(text) {
        Ok(SettingsView { url: Some(text), ..default_settings() })
    } else {
        match apply_items(default_settings(), split_items(text), 0) {
            Err(error) => Err(error),
            Ok(settings) => if settings.url is Some {
                Ok(settings)
            } else {
                Err(ConfigError::MissingUrl)
            },
        }
    }
}

/// Whether `item` is well-formed and names the setting `key`.
pub open spec fn names(item: Seq<char>, key: SettingKey) -> bool {
    item.contains('=') && setting_key(key_part(item)) == Some(key)
}

/// Whether `item` is turned down whatever was read before it: it holds no
/// `=`, or its key is unknown.
pub open spec fn malformed(item: Seq<char>) -> bool {
    !item.contains('=') || setting_key(key_part(item)) is None
}

/// Items that do not name the endpoint leave it unnamed.
proof fn lemma_url_stays_missing(settings: SettingsView, items: Seq<Seq<char>>, index: int)
    requires
        settings.url is None,
        forall|i: int| 0 <= i < items.len() ==> !names(#[trigger] items[i], SettingKey::Url),
    ensures
        apply_items(settings, items, index) matches Ok(read) ==> read.url is None,
    decreases items.len(),
{
    if items.len() > 0 {
        assert(!names(items[0], SettingKey::Url));
        match apply_item(settings, items[0], index) {
            Ok(next) => {
                assert forall|i: int| 0 <= i < items.drop_first().len() implies !names(
                    #[trigger] items.drop_first()[i],
                    SettingKey::Url,
                ) by {
                    assert(items.drop_first()[i] == items[i + 1]);
                }
                lemma_url_stays_missing(next, items.drop_first(), index + 1);
            },
            Err(_) => {},
        }
    }
}

/// One malformed item is enough for the items to be turned down.
proof fn lemma_malformed_item_fails(
    settings: SettingsView,
    items: Seq<Seq<char>>,
    index: int,
    at: int,
)
    requires
        0 <= at < items.len(),
        malformed(items[at]),
    ensures
        apply_items(settings, items, index) is Err,
    decreases items.len(),
{
    if at > 0 {
        match apply_item(settings, items[0], index) {
            Ok(next) => {
                assert(items.drop_first()[at - 1] == items[at]);
                lemma_malformed_item_fails(next, items.drop_first(), index + 1, at - 1);
            },
            Err(_) => {},
        }
    }
}

/// Items leave positive numbers positive.
proof fn lemma_numbers_stay_positive(settings: SettingsView, items: Seq<Seq<char>>, index: int)
    requires
        settings.max_logs_flush_chunk >= 1,
        settings.flush_delay >= 1,
    ensures
        apply_items(settings, items, index) matches Ok(read) ==> read.max_logs_flush_chunk >= 1
            && read.flush_delay >= 1,
    decreases items.len(),
{
    if items.len() > 0 {
        match apply_item(settings, items[0], index) {
            Ok(next) => {
                lemma_numbers_stay_positive(next, items.drop_first(), index + 1);
            },
            Err(_) => {},
        }
    }
}

/// A bare URL resolves to itself as the endpoint, with no credential, the
/// default batch size and the default flush delay.
pub proof fn law_bare_url_is_the_endpoint(text: Seq<char>)
    requires
        looks_like_url(text),
    ensures
        resolve(text) == Ok::<SettingsView, ConfigError>(
            SettingsView {
                url: Some(text),
                api_key: None,
                max_logs_flush_chunk: 50,
                flush_delay: 1,
            },
        ),
{
}

/// A descriptor that is no bare URL and has no item that names the endpoint
/// is turned down.
pub proof fn law_missing_url_is_rejected(text: Seq<char>)
    requires
        !looks_like_url(text),
        forall|i: int|
            0 <= i < split_items(text).len() ==> !names(
                #[trigger] split_items(text)[i],
                SettingKey::Url,
            ),
    ensures
        resolve(text) is Err,
{
    lemma_url_stays_missing(default_settings(), split_items(text), 0);
}

/// A descriptor that is no bare URL and has an item without `=`, or with an
/// unknown key, is turned down.
pub proof fn law_malformed_item_is_rejected(text: Seq<char>, at: int)
    requires
        !looks_like_url(text),
        0 <= at < split_items(text).len(),
        malformed(split_items(text)[at]),
    ensures
        resolve(text) is Err,
{
    lemma_malformed_item_fails(default_settings(), split_items(text), 0, at);
}

/// What a descriptor resolves to is complete: the endpoint is named, and
/// the batch size and the flush delay are positive.
pub proof fn law_resolved_settings_are_complete(text: Seq<char>)
    ensures
        resolve(text) matches Ok(settings) ==> settings.url is Some
            && settings.max_logs_flush_chunk >= 1 && settings.flush_delay >= 1,
{
    lemma_numbers_stay_positive(default_settings(), split_items(text), 0);
}

/// Whether `outcome` is what the mathematical `expected` says.
pub open spec fn settings_match(
    outcome: Result<ConnectionSettings, ConfigError>,
    expected: Result<SettingsView, ConfigError>,
) -> bool {
    match outcome {
        Ok(settings) => expected == Ok::<SettingsView, ConfigError>(settings@),
        Err(error) => expected == Err::<SettingsView, ConfigError>(error),
    }
}

/// Splits an item at its first `=`; `None` where it holds none.
pub fn split_item(item: &str) -> (pair: Option<(&str, &str)>)
    ensures
        pair is Some <==> item@.contains('='),
        pair matches Some((key, value)) ==> key@ == key_part(item@) && value@ == value_part(
            item@,
        ),
{
    let chars = chars_of(item);
    let index = find_from(&chars, 0, '=');
    proof {
        assert(chars@.skip(0) =~= chars@);
        lemma_first_index(item@, '=');
    }
    if index == chars.len() {
        None
    } else {
        let key = item.substring_char(0, index);
        let value = item.substring_char(index + 1, chars.len());
        assert(key@ =~= key_part(item@));
        assert(value@ =~= value_part(item@));
        Some((key, value))
    }
}

/// Whether `chars` begins with `http`, in any letter case.
pub fn is_bare_url(chars: &Vec<char>) -> (bare: bool)
    ensures
        bare == looks_like_url(chars@),
{
    if chars.len() < 4 {
        return false;
    }
    let mut head: Vec<char> = Vec::new();
    head.push(chars[0]);
    head.push(chars[1]);
    head.push(chars[2]);
    head.push(chars[3]);
    assert(head@ =~= chars@.take(4));
    reads_as(&head, "http")
}

/// Reads the setting that `key` names.
pub fn read_key(key: &str) -> (setting: Option<SettingKey>)
    ensures
        setting == setting_key(key@),
{
    let chars = chars_of(key);
    if reads_as(&chars, "url") {
        Some(SettingKey::Url)
    } else if reads_as(&chars, "apikey") {
        Some(SettingKey::ApiKey)
    } else if reads_as(&chars, "flushlogschunk") {
        Some(SettingKey::FlushLogsChunk)
    } else if reads_as(&chars, "flushdelay") {
        Some(SettingKey::FlushDelay)
    } else {
        None
    }
}

/// Reads a positive number of at most `limit`.
pub fn read_positive(text: &str, limit: u64) -> (number: Option<u64>)
    ensures
        number matches Some(n) ==> positive_number(text@, limit as nat) == Some(n as nat),
        number is None ==> positive_number(text@, limit as nat) is None,
{
    let chars = chars_of(text);
    match parse_decimal(&chars, limit) {
        Some(n) => if n >= 1 {
            Some(n)
        } else {
            None
        },
        None => None,
    }
}

/// Reads one item into `settings`.
pub fn read_item(settings: ConnectionSettings, item: &str, index: usize) -> (outcome: Result<
    ConnectionSettings,
    ConfigError,
>)
    ensures
        settings_match(outcome, apply_item(settings@, item@, index as int)),
{
    let mut settings = settings;
    let (key, value) = match split_item(item) {
        Some(pair) => pair,
        None => {
            return Err(ConfigError::MissingSeparator { item: index });
        },
    };
    match read_key(key) {
        None => Err(ConfigError::UnknownKey { item: index }),
        Some(SettingKey::Url) => {
            settings.url = Some(value.to_owned());
            Ok(settings)
        },
        Some(SettingKey::ApiKey) => {
            settings.api_key = Some(value.to_owned());
            Ok(settings)
        },
        Some(SettingKey::FlushLogsChunk) => match read_positive(value, usize::MAX as u64) {
            Some(n) => {
                settings.max_logs_flush_chunk = n as usize;
                Ok(settings)
            },
            None => Err(ConfigError::InvalidFlushLogsChunk { item: index }),
        },
        Some(SettingKey::FlushDelay) => match read_positive(value, u64::MAX) {
            Some(n) => {
                settings.flush_delay = n;
                Ok(settings)
            },
            None => Err(ConfigError::InvalidFlushDelay { item: index }),
        },
    }
}

/// Resolves a descriptor.
///
/// Succeeds exactly on a bare URL and on well-formed items that name the
/// endpoint; otherwise the error tells what is wrong with the first bad item,
/// or that the endpoint is missing.
pub fn parse_connection_string(connection_string: &str) -> (outcome: Result<
    ConnectionSettings,
    ConfigError,
>)
    ensures
        settings_match(outcome, resolve(connection_string@)),
{
    let chars = chars_of(connection_string);
    if is_bare_url(&chars) {
        return Ok(
            ConnectionSettings {
                url: Some(connection_string.to_owned()),
                api_key: None,
                max_logs_flush_chunk: DEFAULT_FLUSH_CHUNK,
                flush_delay: DEFAULT_FLUSH_SLEEP,
            },
        );
    }
    let ghost text = connection_string@;
    let ghost goal = apply_items(default_settings(), split_items(text), 0);
    let mut settings = ConnectionSettings {
        url: None,
        api_key: None,
        max_logs_flush_chunk: DEFAULT_FLUSH_CHUNK,
        flush_delay: DEFAULT_FLUSH_SLEEP,
    };
    let mut start: usize = 0;
    let mut index: usize = 0;
    assert(text.skip(0) =~= text);
    loop
        invariant_except_break
            goal == apply_items(settings@, split_items(text.skip(start as int)), index as int),
        invariant
            chars@ == text,
            text == connection_string@,
            !looks_like_url(text),
            index <= start <= text.len(),
            goal == apply_items(default_settings(), split_items(text), 0),
        ensures
            goal == Ok::<SettingsView, ConfigError>(settings@),
        decreases text.len() - start,
    {
        let end = find_from(&chars, start, ';');
        let item = connection_string.substring_char(start, end);
        proof {
            let rest = text.skip(start as int);
            let items = split_items(rest);
            lemma_first_index(rest, ';');
            assert(item@ =~= rest.take(end - start));
            if end < text.len() {
                assert(rest.skip(end - start + 1) =~= text.skip(end + 1));
                assert(items.drop_first() =~= split_items(text.skip(end + 1)));
            } else {
                assert(rest.take(end - start) =~= rest);
                assert(items.drop_first() =~= Seq::<Seq<char>>::empty());
            }
            assert(items[0] == item@);
            assert(goal == match apply_item(settings@, item@, index as int) {
                Err(error) => Err(error),
                Ok(next) => apply_items(next, items.drop_first(), index + 1),
            });
        }
        match read_item(settings, item, index) {
            Err(error) => {
                return Err(error);
            },
            Ok(next) => {
                settings = next;
            },
        }
        if end == chars.len() {
            break ;
        }
        start = end + 1;
        index = index + 1;
    }
    if settings.url.is_some() {
        Ok(settings)
    } else {
        Err(ConfigError::MissingUrl)
    }
}

} // verus!
