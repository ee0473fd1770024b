//! Sound servers: reading their lists of sources and cards, and the command
//! line of a capture.

use vstd::prelude::*;

use crate::audio::backend::CardInfo;
use crate::audio::backend::CardProfile;
use crate::audio::backend::InputDeviceInfo;
use crate::json::json_of;
use crate::json::parse_json;
use crate::json::said;
use crate::json::Json;
use crate::json::JsonView;
use crate::seqs::views;
use crate::single::Single;
use crate::text::before;
use crate::text::before_is_an_order;
use crate::text::char_is_space;
use crate::text::chars_of;
use crate::text::ends_with;
use crate::text::has_suffix;
use crate::text::is_space;
use crate::text::number_of;
use crate::text::numbered;
use crate::text::numeral;
use crate::text::read_number;
use crate::text::same_text;
use crate::text::stands_before;
use crate::text::text_of;

verus! {

/// One source of the sound server.
#[derive(Debug, PartialEq, Eq)]
pub struct PulseSource {
    /// What patches store.
    pub name: String,
    /// What the system menu shows.
    pub description: String,
    pub channels: u16,
    /// The server's default source.
    pub default: bool,
    /// The card that the source belongs to, when the server says.
    pub card: Option<String>,
    /// The source's own channel map, when the server says.
    pub channel_map: Option<String>,
    pub muted: bool,
    /// The quietest channel's volume in percent, when the server says.
    pub volume_percent: Option<u32>,
}

/// What a source is.
#[verifier::ext_equal]
pub ghost struct SourceView {
    pub name: Seq<char>,
    pub description: Seq<char>,
    pub channels: u16,
    pub default: bool,
    pub card: Option<Seq<char>>,
    pub channel_map: Option<Seq<char>>,
    pub muted: bool,
    pub volume_percent: Option<u32>,
}

impl View for PulseSource {
    type V = SourceView;

    open spec fn view(&self) -> SourceView {
        SourceView {
            name: self.name@,
            description: self.description@,
            channels: self.channels,
            default: self.default,
            card: text_of(self.card),
            channel_map: text_of(self.channel_map),
            muted: self.muted,
            volume_percent: self.volume_percent,
        }
    }
}

/// A sound card and the profiles it can be switched between.
#[derive(Debug, PartialEq, Eq)]
pub struct PulseCard {
    pub name: String,
    pub active_profile: String,
    /// Only profiles that capture, the server's favourites first.
    pub profiles: Vec<PulseProfile>,
}

#[derive(Debug, PartialEq, Eq)]
pub struct PulseProfile {
    pub name: String,
    pub description: String,
}

/// What a profile is.
#[verifier::ext_equal]
pub ghost struct ProfileView {
    pub name: Seq<char>,
    pub description: Seq<char>,
}

impl View for PulseProfile {
    type V = ProfileView;

    open spec fn view(&self) -> ProfileView {
        ProfileView { name: self.name@, description: self.description@ }
    }
}

/// What a card is.
#[verifier::ext_equal]
pub ghost struct PulseCardView {
    pub name: Seq<char>,
    pub active_profile: Seq<char>,
    pub profiles: Seq<ProfileView>,
}

impl View for PulseCard {
    type V = PulseCardView;

    open spec fn view(&self) -> PulseCardView {
        PulseCardView {
            name: self.name@,
            active_profile: self.active_profile@,
            profiles: views(self.profiles@),
        }
    }
}

/// How many characters from the front are no white space.
pub open spec fn word_length(s: Seq<char>) -> nat
    decreases s.len(),
{
    if s.len() == 0 || is_space(s[0]) {
        0
    } else {
        1 + word_length(s.skip(1))
    }
}

/// A word is part of its text.
pub proof fn lemma_a_word_is_part(s: Seq<char>)
    ensures
        word_length(s) <= s.len(),
    decreases s.len(),
{
    if s.len() > 0 {
        lemma_a_word_is_part(s.skip(1));
    }
}

/// The first word that ends in "ch", without that ending.
pub open spec fn channel_word(s: Seq<char>) -> Option<Seq<char>>
    decreases s.len(),
{
    if s.len() == 0 {
        None
    } else if is_space(s[0]) {
        channel_word(s.skip(1))
    } else {
        let n = word_length(s) as int;
        let word = s.take(n);
        if has_suffix(word, seq!['c', 'h']) {
            Some(word.take(n - 2))
        } else {
            proof {
                lemma_a_word_is_part(s);
            }
            channel_word(s.skip(n))
        }
    }
}

/// The channel count in a sample specification such as "s16le 2ch 32000Hz".
pub open spec fn spec_channels(spec: Seq<char>) -> Option<u16> {
    match channel_word(spec) {
        Some(word) => match number_of(word) {
            Some(n) => if n <= u16::MAX {
                Some(n as u16)
            } else {
                None
            },
            None => None,
        },
        None => None,
    }
}

/// The channel count in a sample specification.
pub fn parse_channels(spec: &str) -> (channels: Option<u16>)
    ensures
        channels == spec_channels(spec@),
{
    let chars: Vec<char> = chars_of(spec);
    let mut i: usize = 0;
    assert(chars@.skip(0) =~= chars@);
    while i < chars.len()
        invariant
            chars@ == spec@,
            i <= chars.len(),
            channel_word(chars@) == channel_word(chars@.skip(i as int)),
        decreases chars.len() - i,
    {
        let ghost rest = chars@.skip(i as int);
        if char_is_space(chars[i]) {
            assert(rest[0] == chars@[i as int]);
            assert(rest.skip(1) =~= chars@.skip(i + 1));
            i = i + 1;
        } else {
            let mut end: usize = i;
            assert(rest =~= chars@.skip(end as int));
            while end < chars.len() && !char_is_space(chars[end])
                invariant
                    i <= end <= chars.len(),
                    rest == chars@.skip(i as int),
                    word_length(rest) == (end - i) + word_length(chars@.skip(end as int)),
                decreases chars.len() - end,
            {
                assert(chars@.skip(end as int)[0] == chars@[end as int]);
                assert(chars@.skip(end as int).skip(1) =~= chars@.skip(end + 1));
                end = end + 1;
            }
            proof {
                if end < chars.len() {
                    assert(chars@.skip(end as int)[0] == chars@[end as int]);
                }
                assert(word_length(rest) == end - i);
                assert(rest[0] == chars@[i as int]);
            }
            let ghost n = end - i;
            let ghost word = rest.take(n);
            proof {
                reveal_with_fuel(word_length, 2);
                assert(n > 0);
                assert(word =~= chars@.subrange(i as int, end as int));
                if n >= 2 {
                    assert(word.skip(n - 2)[0] == word[n - 2]);
                    assert(word.skip(n - 2)[1] == word[n - 1]);
                    if word[n - 2] == 'c' && word[n - 1] == 'h' {
                        assert(word.skip(n - 2) =~= seq!['c', 'h']);
                    } else {
                        assert(seq!['c', 'h'][0] == 'c' && seq!['c', 'h'][1] == 'h');
                    }
                }
                assert(has_suffix(word, seq!['c', 'h']) == (n >= 2 && word[n - 2] == 'c'
                    && word[n - 1] == 'h'));
            }
            if end - i >= 2 && chars[end - 2] == 'c' && chars[end - 1] == 'h' {
                proof {
                    assert(word.take(n - 2) =~= chars@.subrange(i as int, end - 2));
                }
                return match read_number(&chars, i, end - 2) {
                    Some(n) => if n <= u16::MAX as u64 {
                        Some(n as u16)
                    } else {
                        None
                    },
                    None => None,
                };
            }
            assert(rest.skip(n) =~= chars@.skip(end as int));
            i = end;
        }
    }
    None
}

/// The value of full volume.
pub const PA_VOLUME_NORM: u64 = 65_536;

/// A volume in percent of full volume.
pub open spec fn percent(value: u64) -> u32 {
    (value * 100 / (PA_VOLUME_NORM as int)) as u32
}

/// The quietest of the first `n` channels of a volume map. A channel without a
/// value does not count.
pub open spec fn quietest(channels: Seq<(Seq<char>, JsonView)>, n: int) -> Option<u32>
    decreases n,
{
    if n <= 0 {
        None
    } else {
        let rest = quietest(channels, n - 1);
        let own = match channels[n - 1].1.field("value"@) {
            Some(value) => match value.whole_number() {
                Some(number) => Some(percent(number)),
                None => None,
            },
            None => None,
        };
        match (rest, own) {
            (Some(a), Some(b)) => Some(
                if b < a {
                    b
                } else {
                    a
                },
            ),
            (Some(a), None) => Some(a),
            (None, own) => own,
        }
    }
}

/// The volume that a source reports, in percent: that of its quietest channel.
pub open spec fn volume_of(volume: Option<JsonView>) -> Option<u32> {
    match volume {
        Some(JsonView::Object(channels)) => quietest(channels, channels.len() as int),
        _ => None,
    }
}

fn percent_of(value: u64) -> (share: u32)
    ensures
        share == percent(value),
{
    let share: u128 = value as u128 * 100 / (PA_VOLUME_NORM as u128);
    share as u32
}

fn parse_volume(volume: Option<&Json>) -> (share: Option<u32>)
    ensures
        share == match volume {
            Some(volume) => volume_of(Some(said(*volume))),
            None => volume_of(None),
        },
{
    match volume {
        Some(json) => match json {
            Json::Object(channels) => {
                let ghost all = said(*json)->Object_0;
                let mut quiet: Option<u32> = None;
                let mut i: usize = 0;
                while i < channels.len()
                    invariant
                        *json == Json::Object(*channels),
                        all == said(*json)->Object_0,
                        all.len() == channels@.len(),
                        i <= channels.len(),
                        quiet == quietest(all, i as int),
                    decreases channels.len() - i,
                {
                    let channel: &(String, Json) = &channels[i];
                    assert(all[i as int] == (channel.0@, said(channel.1)));
                    let own: Option<u32> = match channel.1.get("value") {
                        Some(value) => match value.as_u64() {
                            Some(number) => Some(percent_of(number)),
                            None => None,
                        },
                        None => None,
                    };
                    quiet = match (quiet, own) {
                        (Some(a), Some(b)) => Some(
                            if b < a {
                                b
                            } else {
                                a
                            },
                        ),
                        (Some(a), None) => Some(a),
                        (None, own) => own,
                    };
                    i = i + 1;
                }
                quiet
            },
            _ => None,
        },
        None => None,
    }
}

/// One source of the server's list. It needs a name, a description and a
/// usable sample specification; what else is missing is not guessed.
pub open spec fn source_of(source: JsonView, default_name: Seq<char>) -> Option<SourceView> {
    match (
        source.text_at("name"@),
        source.text_at("description"@),
        source.text_at("sample_specification"@),
    ) {
        (Some(name), Some(description), Some(spec)) => match spec_channels(spec) {
            Some(channels) => Some(
                SourceView {
                    name,
                    description,
                    channels,
                    default: name == default_name,
                    card: match source.field("properties"@) {
                        Some(properties) => properties.text_at("device.name"@),
                        None => None,
                    },
                    channel_map: source.text_at("channel_map"@),
                    muted: source.field("mute"@) matches Some(mute) && mute.truth() == Some(true),
                    volume_percent: volume_of(source.field("volume"@)),
                },
            ),
            None => None,
        },
        _ => None,
    }
}

/// Whether a source is the loopback of a sink.
pub open spec fn is_monitor(source: JsonView) -> bool {
    source.text_at("name"@) matches Some(name) && has_suffix(name, ".monitor"@)
}

/// The inputs among the first `n` sources.
pub open spec fn inputs_of(
    sources: Seq<JsonView>,
    default_name: Seq<char>,
    n: int,
) -> Seq<SourceView>
    decreases n,
{
    if n <= 0 {
        Seq::empty()
    } else {
        let rest = inputs_of(sources, default_name, n - 1);
        match source_of(sources[n - 1], default_name) {
            Some(source) => if is_monitor(sources[n - 1]) {
                rest
            } else {
                rest.push(source)
            },
            None => rest,
        }
    }
}

/// The inputs that a list of sources names; none at all where it is no list.
pub open spec fn sources_of(list: JsonView, default_name: Seq<char>) -> Option<Seq<SourceView>> {
    match list {
        JsonView::List(sources) => Some(inputs_of(sources, default_name, sources.len() as int)),
        _ => None,
    }
}

fn owned(text: Option<&str>) -> (copy: Option<String>)
    ensures
        text_of(copy) == match text {
            Some(text) => Some(text@),
            None => None,
        },
{
    match text {
        Some(text) => Some(text.to_owned()),
        None => None,
    }
}

fn parse_source(source: &Json, default_name: &str) -> (parsed: Option<PulseSource>)
    ensures
        match parsed {
            Some(parsed) => source_of(said(*source), default_name@) == Some(parsed@),
            None => source_of(said(*source), default_name@) is None,
        },
{
    let name: &str = match source.get_str("name") {
        Some(name) => name,
        None => return None,
    };
    let description: &str = match source.get_str("description") {
        Some(description) => description,
        None => return None,
    };
    let spec: &str = match source.get_str("sample_specification") {
        Some(spec) => spec,
        None => return None,
    };
    let channels: u16 = match parse_channels(spec) {
        Some(channels) => channels,
        None => return None,
    };
    let card: Option<&str> = match source.get("properties") {
        Some(properties) => properties.get_str("device.name"),
        None => None,
    };
    let muted: bool = match source.get("mute") {
        Some(mute) => match mute.as_bool() {
            Some(muted) => muted,
            None => false,
        },
        None => false,
    };
    Some(
        PulseSource {
            name: name.to_owned(),
            description: description.to_owned(),
            channels,
            default: same_text(name, default_name),
            card: owned(card),
            channel_map: owned(source.get_str("channel_map")),
            muted,
            volume_percent: parse_volume(source.get("volume")),
        },
    )
}

/// The inputs that a list of sources names.
pub fn sources_from(list: &Json, default_name: &str) -> (parsed: Option<Vec<PulseSource>>)
    ensures
        match parsed {
            Some(sources) => sources_of(said(*list), default_name@) == Some(views(sources@)),
            None => sources_of(said(*list), default_name@) is None,
        },
{
    match list {
        Json::List(items) => {
            let ghost all = said(*list)->List_0;
            let mut sources: Vec<PulseSource> = Vec::new();
            let mut i: usize = 0;
            assert(views(sources@) =~= Seq::<SourceView>::empty());
            while i < items.len()
                invariant
                    *list == Json::List(*items),
                    all == said(*list)->List_0,
                    all.len() == items@.len(),
                    i <= items.len(),
                    views(sources@) == inputs_of(all, default_name@, i as int),
                decreases items.len() - i,
            {
                let item: &Json = &items[i];
                assert(all[i as int] == said(*item));
                let monitor: bool = match item.get_str("name") {
                    Some(name) => ends_with(name, ".monitor"),
                    None => false,
                };
                if !monitor {
                    if let Some(source) = parse_source(item, default_name) {
                        let ghost before = sources@;
                        sources.push(source);
                        assert(views(sources@) =~= views(before).push(source@));
                    }
                }
                i = i + 1;
            }
            Some(sources)
        },
        _ => None,
    }
}

/// Reads the server's list of sources. The loopbacks of sinks are no inputs.
pub fn parse_sources(json: &str, default_name: &str) -> (parsed: Option<Vec<PulseSource>>)
    ensures
        match (parsed, json_of(json@)) {
            (Some(sources), Some(list)) => sources_of(list, default_name@) == Some(
                views(sources@),
            ),
            (None, Some(list)) => sources_of(list, default_name@) is None,
            (parsed, None) => parsed is None,
        },
{
    match parse_json(json) {
        Some(list) => sources_from(&list, default_name),
        None => None,
    }
}

/// Whether a profile is worth offering: it can be selected, and leaves at
/// least one input.
pub open spec fn captures(profile: JsonView) -> bool {
    &&& !(profile.field("available"@) matches Some(available) && available.truth() == Some(false))
    &&& profile.field("sources"@) matches Some(sources) && sources.whole_number() matches Some(n)
        && n > 0
}

/// A profile with its rank.
pub ghost struct Ranked {
    pub rank: i64,
    pub profile: ProfileView,
}

/// A profile of the server's list.
pub open spec fn profile_of(name: Seq<char>, profile: JsonView) -> Ranked {
    Ranked {
        rank: match profile.field("priority"@) {
            Some(priority) => match priority.signed_number() {
                Some(rank) => rank,
                None => 0,
            },
            None => 0,
        },
        profile: ProfileView {
            name,
            description: match profile.text_at("description"@) {
                Some(description) => description,
                None => name,
            },
        },
    }
}

/// Whether a profile goes in front of another: the higher rank first, then the
/// alphabet.
pub open spec fn goes_first(a: Ranked, b: Ranked) -> bool {
    a.rank > b.rank || (a.rank == b.rank && before(a.profile.name, b.profile.name))
}

/// Where a profile goes among sorted ones, from `i` on: in front of the first
/// that it precedes.
pub open spec fn rank_place(sorted: Seq<Ranked>, item: Ranked, i: int) -> int
    decreases sorted.len() - i,
{
    if i < 0 || i >= sorted.len() || goes_first(item, sorted[i]) {
        i
    } else {
        rank_place(sorted, item, i + 1)
    }
}

/// The first `n` profiles that capture, in order of rank.
pub open spec fn ranked(profiles: Seq<(Seq<char>, JsonView)>, n: int) -> Seq<Ranked>
    decreases n,
{
    if n <= 0 {
        Seq::empty()
    } else {
        let rest = ranked(profiles, n - 1);
        let (name, profile) = profiles[n - 1];
        if captures(profile) {
            let item = profile_of(name, profile);
            rest.insert(rank_place(rest, item, 0), item)
        } else {
            rest
        }
    }
}

/// The profiles behind a ranking.
pub open spec fn unranked(list: Seq<Ranked>) -> Seq<ProfileView> {
    Seq::new(list.len(), |i: int| list[i].profile)
}

/// One card of the server's list.
pub open spec fn card_of(card: JsonView) -> Option<PulseCardView> {
    match (
        card.text_at("name"@),
        card.text_at("active_profile"@),
        card.field("profiles"@),
    ) {
        (Some(name), Some(active_profile), Some(JsonView::Object(profiles))) => Some(
            PulseCardView {
                name,
                active_profile,
                profiles: unranked(ranked(profiles, profiles.len() as int)),
            },
        ),
        _ => None,
    }
}

/// The usable ones among the first `n` cards.
pub open spec fn cards_among(cards: Seq<JsonView>, n: int) -> Seq<PulseCardView>
    decreases n,
{
    if n <= 0 {
        Seq::empty()
    } else {
        let rest = cards_among(cards, n - 1);
        match card_of(cards[n - 1]) {
            Some(card) => rest.push(card),
            None => rest,
        }
    }
}

/// The cards that a list names; none at all where it is no list.
pub open spec fn cards_of(list: JsonView) -> Option<Seq<PulseCardView>> {
    match list {
        JsonView::List(cards) => Some(cards_among(cards, cards.len() as int)),
        _ => None,
    }
}

fn profile_captures(profile: &Json) -> (offered: bool)
    ensures
        offered == captures(said(*profile)),
{
    let available: Option<bool> = match profile.get("available") {
        Some(available) => available.as_bool(),
        None => None,
    };
    let sources: u64 = match profile.get("sources") {
        Some(sources) => match sources.as_u64() {
            Some(n) => n,
            None => 0,
        },
        None => 0,
    };
    let refused: bool = match available {
        Some(available) => !available,
        None => false,
    };
    !refused && sources > 0
}

struct RankedProfile {
    rank: i64,
    profile: PulseProfile,
}

impl View for RankedProfile {
    type V = Ranked;

    closed spec fn view(&self) -> Ranked {
        Ranked { rank: self.rank, profile: self.profile@ }
    }
}

fn parse_profile(name: &str, profile: &Json) -> (parsed: RankedProfile)
    ensures
        parsed@ == profile_of(name@, said(*profile)),
{
    let rank: i64 = match profile.get("priority") {
        Some(priority) => match priority.as_i64() {
            Some(rank) => rank,
            None => 0,
        },
        None => 0,
    };
    let description: String = match profile.get_str("description") {
        Some(description) => description.to_owned(),
        None => name.to_owned(),
    };
    RankedProfile { rank, profile: PulseProfile { name: name.to_owned(), description } }
}

fn precedes(a: &RankedProfile, b: &RankedProfile) -> (first: bool)
    ensures
        first == goes_first(a@, b@),
{
    a.rank > b.rank || (a.rank == b.rank && stands_before(
        a.profile.name.as_str(),
        b.profile.name.as_str(),
    ))
}

fn parse_card(card: &Json) -> (parsed: Option<PulseCard>)
    ensures
        match parsed {
            Some(parsed) => card_of(said(*card)) == Some(parsed@),
            None => card_of(said(*card)) is None,
        },
{
    let name: &str = match card.get_str("name") {
        Some(name) => name,
        None => return None,
    };
    let active_profile: &str = match card.get_str("active_profile") {
        Some(active_profile) => active_profile,
        None => return None,
    };
    let profiles: &Json = match card.get("profiles") {
        Some(profiles) => profiles,
        None => return None,
    };
    match profiles {
        Json::Object(fields) => {
            let ghost all = said(*profiles)->Object_0;
            let mut sorted: Vec<RankedProfile> = Vec::new();
            let mut i: usize = 0;
            assert(views(sorted@) =~= Seq::<Ranked>::empty());
            while i < fields.len()
                invariant
                    *profiles == Json::Object(*fields),
                    all == said(*profiles)->Object_0,
                    all.len() == fields@.len(),
                    i <= fields.len(),
                    views(sorted@) == ranked(all, i as int),
                decreases fields.len() - i,
            {
                let field: &(String, Json) = &fields[i];
                assert(all[i as int] == (field.0@, said(field.1)));
                if profile_captures(&field.1) {
                    let item: RankedProfile = parse_profile(field.0.as_str(), &field.1);
                    let ghost rest = views(sorted@);
                    let mut at: usize = 0;
                    while at < sorted.len() && !precedes(&item, &sorted[at])
                        invariant
                            at <= sorted.len(),
                            rest == views(sorted@),
                            rank_place(rest, item@, 0) == rank_place(rest, item@, at as int),
                        decreases sorted.len() - at,
                    {
                        assert(rest[at as int] == sorted@[at as int]@);
                        at = at + 1;
                    }
                    proof {
                        if at < sorted.len() {
                            assert(rest[at as int] == sorted@[at as int]@);
                        }
                    }
                    sorted.insert(at, item);
                    assert(views(sorted@) =~= rest.insert(at as int, item@));
                }
                i = i + 1;
            }
            let ghost list = ranked(all, all.len() as int);
            let mut kept: Vec<PulseProfile> = Vec::new();
            while sorted.len() > 0
                invariant
                    sorted@.len() + kept@.len() == list.len(),
                    forall|j: int|
                        0 <= j < kept@.len() ==> (#[trigger] kept@[j])@ == list[j].profile,
                    forall|j: int|
                        0 <= j < sorted@.len() ==> (#[trigger] sorted@[j])@ == list[kept@.len() + j],
                decreases sorted.len(),
            {
                let ghost held = sorted@;
                let first: RankedProfile = sorted.remove(0);
                assert(held[0]@ == list[kept@.len() as int]);
                assert forall|j: int| 0 <= j < sorted@.len() implies (#[trigger] sorted@[j])@
                    == list[kept@.len() + 1 + j] by {
                    assert(sorted@[j] == held[j + 1]);
                }
                kept.push(first.profile);
            }
            assert(views(kept@) =~= unranked(list));
            Some(
                PulseCard {
                    name: name.to_owned(),
                    active_profile: active_profile.to_owned(),
                    profiles: kept,
                },
            )
        },
        _ => None,
    }
}

/// The cards that a list names.
pub fn cards_from(list: &Json) -> (parsed: Option<Vec<PulseCard>>)
    ensures
        match parsed {
            Some(cards) => cards_of(said(*list)) == Some(views(cards@)),
            None => cards_of(said(*list)) is None,
        },
{
    match list {
        Json::List(items) => {
            let ghost all = said(*list)->List_0;
            let mut cards: Vec<PulseCard> = Vec::new();
            let mut i: usize = 0;
            assert(views(cards@) =~= Seq::<PulseCardView>::empty());
            while i < items.len()
                invariant
                    *list == Json::List(*items),
                    all == said(*list)->List_0,
                    all.len() == items@.len(),
                    i <= items.len(),
                    views(cards@) == cards_among(all, i as int),
                decreases items.len() - i,
            {
                let item: &Json = &items[i];
                assert(all[i as int] == said(*item));
                if let Some(card) = parse_card(item) {
                    let ghost before = cards@;
                    cards.push(card);
                    assert(views(cards@) =~= views(before).push(card@));
                }
                i = i + 1;
            }
            Some(cards)
        },
        _ => None,
    }
}

/// Reads the server's list of cards.
pub fn parse_cards(json: &str) -> (parsed: Option<Vec<PulseCard>>)
    ensures
        match (parsed, json_of(json@)) {
            (Some(cards), Some(list)) => cards_of(list) == Some(views(cards@)),
            (None, Some(list)) => cards_of(list) is None,
            (parsed, None) => parsed is None,
        },
{
    match parse_json(json) {
        Some(list) => cards_from(&list),
        None => None,
    }
}

/// The offered profiles come in order of rank, and in the order of the alphabet
/// where they rank alike.
pub proof fn profiles_come_in_order(profiles: Seq<(Seq<char>, JsonView)>, n: int)
    requires
        0 <= n <= profiles.len(),
    ensures
        forall|i: int, j: int|
            0 <= i < j < ranked(profiles, n).len() ==> !goes_first(
                #[trigger] ranked(profiles, n)[j],
                #[trigger] ranked(profiles, n)[i],
            ),
    decreases n,
{
    if n > 0 {
        profiles_come_in_order(profiles, n - 1);
        let rest = ranked(profiles, n - 1);
        let (name, profile) = profiles[n - 1];
        if captures(profile) {
            let item = profile_of(name, profile);
            let at = rank_place(rest, item, 0);
            lemma_rank_place(rest, item, 0);
            let list = rest.insert(at, item);
            assert forall|i: int, j: int| 0 <= i < j < list.len() implies !goes_first(
                #[trigger] list[j],
                #[trigger] list[i],
            ) by {
                if i < at && j == at {
                } else if i == at {
                    let next = rest[at];
                    let later = rest[j - 1];
                    before_is_an_order(
                        item.profile.name,
                        next.profile.name,
                        later.profile.name,
                    );
                    before_is_an_order(
                        later.profile.name,
                        item.profile.name,
                        next.profile.name,
                    );
                    before_is_an_order(
                        next.profile.name,
                        later.profile.name,
                        item.profile.name,
                    );
                    if j - 1 > at {
                        assert(!goes_first(rest[j - 1], rest[at]));
                    }
                } else {
                    let x = if i < at {
                        i
                    } else {
                        i - 1
                    };
                    let y = if j < at {
                        j
                    } else {
                        j - 1
                    };
                    assert(!goes_first(rest[y], rest[x]));
                }
            }
        }
    }
}

proof fn lemma_rank_place(sorted: Seq<Ranked>, item: Ranked, i: int)
    requires
        0 <= i <= sorted.len(),
        forall|j: int| 0 <= j < i ==> !goes_first(item, #[trigger] sorted[j]),
    ensures
        i <= rank_place(sorted, item, i) <= sorted.len(),
        forall|j: int|
            0 <= j < rank_place(sorted, item, i) ==> !goes_first(item, #[trigger] sorted[j]),
        rank_place(sorted, item, i) < sorted.len() ==> goes_first(
            item,
            sorted[rank_place(sorted, item, i)],
        ),
    decreases sorted.len() - i,
{
    if i < sorted.len() && !goes_first(item, sorted[i]) {
        lemma_rank_place(sorted, item, i + 1);
    }
}

/// A profile that would leave no input, or that cannot be selected, is never
/// offered.
pub proof fn only_capturing_profiles_are_offered(profiles: Seq<(Seq<char>, JsonView)>, n: int)
    requires
        0 <= n <= profiles.len(),
    ensures
        forall|i: int|
            0 <= i < ranked(profiles, n).len() ==> exists|k: int|
                0 <= k < n && captures(profiles[k].1) && #[trigger] ranked(profiles, n)[i]
                    == #[trigger] profile_of(profiles[k].0, profiles[k].1),
    decreases n,
{
    if n > 0 {
        only_capturing_profiles_are_offered(profiles, n - 1);
        let rest = ranked(profiles, n - 1);
        let (name, profile) = profiles[n - 1];
        let list = ranked(profiles, n);
        let item = profile_of(name, profile);
        let at = rank_place(rest, item, 0);
        lemma_rank_place(rest, item, 0);
        assert forall|i: int| 0 <= i < list.len() implies exists|k: int|
            0 <= k < n && captures(profiles[k].1) && #[trigger] list[i]
                == #[trigger] profile_of(profiles[k].0, profiles[k].1) by {
            let from = if !captures(profile) || i < at {
                i
            } else {
                i - 1
            };
            if captures(profile) && i == at {
                assert(list[i] == profile_of(profiles[n - 1].0, profiles[n - 1].1));
            } else {
                assert(list[i] == rest[from]);
            }
        }
    }
}

/// Bytes of one sample.
pub const SAMPLE_BYTES: usize = 4;

/// One read of a capture's output.
pub const READ_BUF_BYTES: usize = 4096;

/// The buffering that the server is asked for, in milliseconds.
pub const PAREC_LATENCY_MSEC: u32 = 20;

/// How many parts the commas of a text make.
pub open spec fn parts(text: Seq<char>) -> nat
    decreases text.len(),
{
    if text.len() == 0 {
        1
    } else {
        parts(text.drop_last()) + if text.last() == ',' {
            1nat
        } else {
            0nat
        }
    }
}

fn count_parts(text: &str) -> (count: usize)
    requires
        text@.len() < usize::MAX,
    ensures
        count == parts(text@),
{
    let chars: Vec<char> = chars_of(text);
    let mut count: usize = 1;
    let mut i: usize = 0;
    assert(chars@.take(0).len() == 0);
    while i < chars.len()
        invariant
            i <= chars.len() < usize::MAX,
            count == parts(chars@.take(i as int)),
            count <= i + 1,
        decreases chars.len() - i,
    {
        assert(chars@.take(i + 1).drop_last() =~= chars@.take(i as int));
        if chars[i] == ',' {
            count = count + 1;
        }
        i = i + 1;
    }
    assert(chars@.take(chars@.len() as int) =~= chars@);
    count
}

/// The arguments of a capture. Without a source it follows the server's
/// default. The channel map is passed on only where it describes the width
/// that is opened.
pub open spec fn capture_args(
    source: Option<Seq<char>>,
    channels: u16,
    sample_rate: u32,
    channel_map: Option<Seq<char>>,
) -> Seq<Seq<char>> {
    let fixed = seq![
        "--raw"@,
        "--format=float32le"@,
        "--rate="@ + numeral(sample_rate as nat),
        "--channels="@ + numeral(channels as nat),
        "--no-remap"@,
        "--no-remix"@,
        "--latency-msec="@ + numeral(PAREC_LATENCY_MSEC as nat),
        "--client-name=tribd"@,
    ];
    let targeted = match source {
        Some(name) => fixed.push("--device="@ + name),
        None => fixed,
    };
    match channel_map {
        Some(map) => if parts(map) == channels {
            targeted.push("--channel-map="@ + map)
        } else {
            targeted
        },
        None => targeted,
    }
}

fn labelled(label: &str, value: &str) -> (text: String)
    ensures
        text@ == label@ + value@,
{
    let mut text: String = label.to_owned();
    text.append(value);
    text
}

/// The arguments of a capture.
pub fn parec_args(
    source: Option<&str>,
    channels: u16,
    sample_rate: u32,
    channel_map: Option<&str>,
) -> (args: Vec<String>)
    requires
        channel_map matches Some(map) ==> map@.len() < usize::MAX,
    ensures
        crate::text::texts_of(args@) == capture_args(
            match source {
                Some(name) => Some(name@),
                None => None,
            },
            channels,
            sample_rate,
            match channel_map {
                Some(map) => Some(map@),
                None => None,
            },
        ),
{
    let mut args: Vec<String> = Vec::new();
    args.push("--raw".to_owned());
    args.push("--format=float32le".to_owned());
    args.push(numbered("--rate=", sample_rate as u64));
    args.push(numbered("--channels=", channels as u64));
    args.push("--no-remap".to_owned());
    args.push("--no-remix".to_owned());
    args.push(numbered("--latency-msec=", PAREC_LATENCY_MSEC as u64));
    args.push("--client-name=tribd".to_owned());
    let ghost fixed = crate::text::texts_of(args@);
    proof {
        assert(fixed =~= seq![
            "--raw"@,
            "--format=float32le"@,
            "--rate="@ + numeral(sample_rate as nat),
            "--channels="@ + numeral(channels as nat),
            "--no-remap"@,
            "--no-remix"@,
            "--latency-msec="@ + numeral(PAREC_LATENCY_MSEC as nat),
            "--client-name=tribd"@,
        ]);
    }
    if let Some(name) = source {
        args.push(labelled("--device=", name));
        assert(crate::text::texts_of(args@) =~= fixed.push("--device="@ + name@));
    }
    let ghost targeted = crate::text::texts_of(args@);
    if let Some(map) = channel_map {
        if count_parts(map) == channels as usize {
            args.push(labelled("--channel-map=", map));
            assert(crate::text::texts_of(args@) =~= targeted.push("--channel-map="@ + map@));
        }
    }
    args
}

/// The bits of a sample from its four bytes, the lowest first.
pub open spec fn sample_bits(bytes: Seq<u8>, at: int) -> u32 {
    (bytes[at] + bytes[at + 1] * 0x100 + bytes[at + 2] * 0x1_0000 + bytes[at + 3]
        * 0x100_0000) as u32
}

/// The whole frames at the front of a run of bytes, in samples.
pub open spec fn whole_samples(bytes: int, channels: int) -> int {
    bytes / (channels * SAMPLE_BYTES) * channels
}

/// Takes every whole frame off the front of what a capture has delivered. What
/// is left is less than a frame.
pub fn take_frames(carry: &mut Vec<u8>, channels: usize) -> (samples: Vec<Single>)
    requires
        channels > 0,
        channels * SAMPLE_BYTES <= usize::MAX,
    ensures
        ({
            let count = whole_samples(old(carry)@.len() as int, channels as int);
            &&& samples@ == Seq::new(
                count as nat,
                |i: int| Single { bits: sample_bits(old(carry)@, i * 4) },
            )
            &&& final(carry)@ == old(carry)@.skip(count * 4)
            &&& final(carry)@.len() < channels * SAMPLE_BYTES
        }),
{
    let ghost bytes = carry@;
    let length: usize = carry.len();
    let frame_bytes: usize = channels * SAMPLE_BYTES;
    let frames: usize = length / frame_bytes;
    let ghost count = frames * channels;
    proof {
        assert(frames * frame_bytes <= length) by (nonlinear_arith)
            requires
                frame_bytes > 0,
                frames == length / frame_bytes,
        ;
        assert(length - frames * frame_bytes < frame_bytes) by (nonlinear_arith)
            requires
                frame_bytes > 0,
                frames == length / frame_bytes,
        ;
        assert(frames * frame_bytes == frames * channels * 4) by (nonlinear_arith)
            requires
                frame_bytes == channels * 4,
        ;
    }
    let whole: usize = frames * frame_bytes;
    let mut samples: Vec<Single> = Vec::new();
    let mut at: usize = 0;
    while at < whole
        invariant
            at <= whole <= carry@.len(),
            carry@ == bytes,
            whole == count * 4,
            at == samples@.len() * 4,
            forall|i: int|
                0 <= i < samples@.len() ==> #[trigger] samples@[i] == (Single {
                    bits: sample_bits(bytes, i * 4),
                }),
        decreases whole - at,
    {
        let bits: u32 = carry[at] as u32 + carry[at + 1] as u32 * 0x100 + carry[at + 2] as u32
            * 0x1_0000 + carry[at + 3] as u32 * 0x100_0000;
        samples.push(Single { bits });
        at = at + 4;
    }
    let mut rest: Vec<u8> = Vec::new();
    let mut i: usize = whole;
    while i < carry.len()
        invariant
            whole <= i <= carry@.len(),
            carry@ == bytes,
            rest@ == bytes.subrange(whole as int, i as int),
        decreases carry.len() - i,
    {
        rest.push(carry[i]);
        i = i + 1;
        assert(rest@ =~= bytes.subrange(whole as int, i as int));
    }
    proof {
        assert(rest@ =~= bytes.skip(whole as int));
        assert(samples@ =~= Seq::new(
            count as nat,
            |i: int| Single { bits: sample_bits(bytes, i * 4) },
        ));
    }
    *carry = rest;
    samples
}

/// A source of the sound server as an input device.
pub fn describe_source(source: PulseSource) -> (device: InputDeviceInfo)
    ensures
        device.name@ == source@.name,
        text_of(device.description) == Some(source@.description),
        device.channels == source@.channels,
        device.active == source@.default,
        device.pulse,
        text_of(device.card) == source@.card,
        text_of(device.channel_map) == source@.channel_map,
        device.muted == source@.muted,
        device.volume_percent == source@.volume_percent,
{
    InputDeviceInfo {
        name: source.name,
        description: Some(source.description),
        channels: source.channels,
        active: source.default,
        pulse: true,
        card: source.card,
        channel_map: source.channel_map,
        muted: source.muted,
        volume_percent: source.volume_percent,
    }
}

/// A card of the sound server as the console shows it.
pub fn describe_card(card: PulseCard) -> (info: CardInfo)
    ensures
        info.name@ == card@.name,
        info.active_profile@ == card@.active_profile,
        info.profiles@.len() == card@.profiles.len(),
        forall|i: int|
            0 <= i < info.profiles@.len() ==> {
                &&& (#[trigger] info.profiles@[i]).name@ == card@.profiles[i].name
                &&& info.profiles@[i].description@ == card@.profiles[i].description
            },
{
    let ghost wanted = card@.profiles;
    let mut profiles: Vec<CardProfile> = Vec::new();
    let mut i: usize = 0;
    while i < card.profiles.len()
        invariant
            wanted == views(card.profiles@),
            i <= card.profiles.len(),
            profiles@.len() == i,
            forall|j: int|
                0 <= j < i ==> {
                    &&& (#[trigger] profiles@[j]).name@ == wanted[j].name
                    &&& profiles@[j].description@ == wanted[j].description
                },
        decreases card.profiles.len() - i,
    {
        let profile: &PulseProfile = &card.profiles[i];
        assert(wanted[i as int] == profile@);
        profiles.push(
            CardProfile {
                name: profile.name.clone(),
                description: profile.description.clone(),
            },
        );
        i = i + 1;
    }
    CardInfo { name: card.name, active_profile: card.active_profile, profiles }
}

} // verus!
