//! What the sound server's listings come to.

use vstd::arithmetic::div_mod::lemma_mod_multiples_basic;
use vstd::prelude::*;

use crate::audio::pulse::capture_args;
use crate::audio::pulse::captures;
use crate::audio::pulse::card_of;
use crate::audio::pulse::cards_among;
use crate::audio::pulse::cards_of;
use crate::audio::pulse::channel_word;
use crate::audio::pulse::goes_first;
use crate::audio::pulse::inputs_of;
use crate::audio::pulse::parts;
use crate::audio::pulse::percent;
use crate::audio::pulse::profile_of;
use crate::audio::pulse::quietest;
use crate::audio::pulse::rank_place;
use crate::audio::pulse::ranked;
use crate::audio::pulse::sample_bits;
use crate::audio::pulse::source_of;
use crate::audio::pulse::sources_of;
use crate::audio::pulse::spec_channels;
use crate::audio::pulse::unranked;
use crate::audio::pulse::volume_of;
use crate::audio::pulse::whole_samples;
use crate::audio::pulse::word_length;
use crate::audio::pulse::Ranked;
use crate::json::entry_from;
use crate::json::JsonView;
use crate::project::wire::lemma_four_bytes;
use crate::text::before;
use crate::text::has_suffix;
use crate::text::is_space;
use crate::text::number_of;
use crate::text::numeral;

verus! {

proof fn lemma_entry(fields: Seq<(Seq<char>, JsonView)>, key: Seq<char>, from: int, i: int)
    requires
        0 <= from <= i < fields.len(),
        fields[i].0 == key,
        forall|j: int| from <= j < i ==> (#[trigger] fields[j]).0 != key,
    ensures
        entry_from(fields, key, from) == Some(fields[i].1),
    decreases i - from,
{
    if from < i {
        assert(fields[from].0 != key);
        lemma_entry(fields, key, from + 1, i);
    }
}

proof fn lemma_no_entry(fields: Seq<(Seq<char>, JsonView)>, key: Seq<char>, from: int)
    requires
        0 <= from,
        forall|j: int| from <= j < fields.len() ==> (#[trigger] fields[j]).0 != key,
    ensures
        entry_from(fields, key, from) is None,
    decreases fields.len() - from,
{
    if from < fields.len() {
        assert(fields[from].0 != key);
        lemma_no_entry(fields, key, from + 1);
    }
}

/// A field of an object is the one of that name. What is no object has no fields.
pub proof fn a_field_is_the_one_of_its_name(value: JsonView, key: Seq<char>, i: int)
    ensures
        value matches JsonView::Object(fields) ==> {
            &&& 0 <= i < fields.len() && fields[i].0 == key && (forall|j: int|
                0 <= j < i ==> (#[trigger] fields[j]).0 != key) ==> value.field(key) == Some(
                fields[i].1,
            )
            &&& (forall|j: int| 0 <= j < fields.len() ==> (#[trigger] fields[j]).0 != key)
                ==> value.field(key) is None
        },
        !(value is Object) ==> value.field(key) is None,
        value.field(key) matches Some(JsonView::Text(text)) ==> value.text_at(key) == Some(text),
        !(value.field(key) matches Some(JsonView::Text(_))) ==> value.text_at(key) is None,
{
    if let JsonView::Object(fields) = value {
        if 0 <= i < fields.len() && fields[i].0 == key && (forall|j: int|
            0 <= j < i ==> (#[trigger] fields[j]).0 != key) {
            lemma_entry(fields, key, 0, i);
        }
        if forall|j: int| 0 <= j < fields.len() ==> (#[trigger] fields[j]).0 != key {
            lemma_no_entry(fields, key, 0);
        }
    }
}

proof fn lemma_word(word: Seq<char>, rest: Seq<char>)
    requires
        forall|k: int| 0 <= k < word.len() ==> !is_space(#[trigger] word[k]),
        rest.len() > 0 ==> is_space(rest[0]),
    ensures
        word_length(word + rest) == word.len(),
    decreases word.len(),
{
    let s = word + rest;
    if word.len() == 0 {
        assert(s =~= rest);
    } else {
        assert(s[0] == word[0]);
        let tail = word.skip(1);
        assert(s.skip(1) =~= tail + rest);
        assert forall|k: int| 0 <= k < tail.len() implies !is_space(#[trigger] tail[k]) by {
            assert(tail[k] == word[k + 1]);
        }
        lemma_word(tail, rest);
    }
}

/// The channels of a sample specification stand in front of `ch`, in the first word
/// that ends so. Words are parted by white space.
pub proof fn channels_stand_in_front_of_ch(word: Seq<char>, rest: Seq<char>, c: char)
    requires
        word.len() > 0,
        forall|k: int| 0 <= k < word.len() ==> !is_space(#[trigger] word[k]),
        rest.len() > 0 ==> is_space(rest[0]),
    ensures
        word.len() >= 2 && word[word.len() - 2] == 'c' && word[word.len() - 1] == 'h'
            ==> channel_word(word + rest) == Some(word.take(word.len() - 2)),
        !(word.len() >= 2 && word[word.len() - 2] == 'c' && word[word.len() - 1] == 'h')
            ==> channel_word(word + rest) == channel_word(rest),
        is_space(c) ==> channel_word(seq![c] + rest) == channel_word(rest),
        channel_word(Seq::empty()) is None,
{
    let s = word + rest;
    let n = word.len() as int;
    lemma_word(word, rest);
    assert(s[0] == word[0]);
    assert(s.take(n) =~= word);
    assert(s.skip(n) =~= rest);
    let tail = word.skip(n - 2);
    if n >= 2 {
        assert(tail.len() == 2 && tail[0] == word[n - 2] && tail[1] == word[n - 1]);
        if word[n - 2] == 'c' && word[n - 1] == 'h' {
            assert(tail =~= seq!['c', 'h']);
        } else {
            assert(tail != seq!['c', 'h']) by {
                assert(seq!['c', 'h'][0] == 'c' && seq!['c', 'h'][1] == 'h');
            }
        }
    }
    assert((seq![c] + rest).skip(1) =~= rest);
    assert((seq![c] + rest)[0] == c);
}

/// The channel count is the number that stands there, if it fits in sixteen bits.
pub proof fn a_channel_count_is_a_number(spec: Seq<char>)
    ensures
        spec_channels(spec) matches Some(n) ==> {
            &&& channel_word(spec) is Some
            &&& number_of(channel_word(spec)->0) == Some(n as nat)
        },
        channel_word(spec) matches Some(word) ==> (number_of(word) matches Some(n) && n <= 65535
            ==> spec_channels(spec) is Some),
{
}

/// A volume in percent is the whole part of what it is of the full one, 65536.
pub proof fn a_volume_is_a_share_of_the_full_one(value: u64)
    requires
        value < 0x2_0000_0000_0000,
    ensures
        percent(value) * 65536 <= value * 100 < (percent(value) + 1) * 65536 || value * 100 / 65536
            > u32::MAX,
{
}

/// The volume that counts for a channel, if it says one.
pub open spec fn volume_said(channel: JsonView, v: u64) -> bool {
    channel.field("value"@) matches Some(JsonView::Number { whole, .. }) && whole == Some(v)
}

/// A source is as loud as its quietest channel. Channels without a number do not
/// count.
pub proof fn the_quietest_channel_counts(channels: Seq<(Seq<char>, JsonView)>, n: int)
    requires
        0 <= n <= channels.len(),
    ensures
        forall|k: int, v: u64|
            #![trigger volume_said(channels[k].1, v)]
            0 <= k < n && volume_said(channels[k].1, v) ==> (quietest(channels, n) matches Some(low)
                && low <= percent(v)),
        quietest(channels, n) matches Some(low) ==> exists|k: int, v: u64|
            0 <= k < n && #[trigger] volume_said(channels[k].1, v) && low == percent(v),
        volume_of(Some(JsonView::Object(channels))) == quietest(channels, channels.len() as int),
        volume_of(None) is None,
    decreases n,
{
    if n > 0 {
        the_quietest_channel_counts(channels, n - 1);
        let last = channels[n - 1].1;
        if let Some(low) = quietest(channels, n) {
            if quietest(channels, n - 1) == Some(low) {
                let (k, v) = choose|k: int, v: u64|
                    0 <= k < n - 1 && #[trigger] volume_said(channels[k].1, v) && low == percent(v);
                assert(volume_said(channels[k].1, v));
            } else {
                let v = last.field("value"@)->0.whole_number()->0;
                assert(volume_said(channels[n - 1].1, v));
            }
        }
    }
}

/// A source is taken where it says its name, its description and its channels, and it
/// is what it says: the default if it has that name, muted if it says so, on the card
/// of its properties.
pub proof fn a_source_is_what_it_says(source: JsonView, default_name: Seq<char>)
    ensures
        source_of(source, default_name) is Some <==> {
            &&& source.text_at("name"@) is Some
            &&& source.text_at("description"@) is Some
            &&& source.text_at("sample_specification"@) is Some
            &&& spec_channels(source.text_at("sample_specification"@)->0) is Some
        },
        source_of(source, default_name) matches Some(taken) ==> {
            &&& source.text_at("name"@) == Some(taken.name)
            &&& source.text_at("description"@) == Some(taken.description)
            &&& spec_channels(source.text_at("sample_specification"@)->0) == Some(taken.channels)
            &&& taken.default <==> taken.name == default_name
            &&& taken.channel_map == source.text_at("channel_map"@)
            &&& taken.muted <==> source.field("mute"@) == Some(JsonView::Bool(true))
            &&& source.field("properties"@) matches Some(properties) ==> taken.card
                == properties.text_at("device.name"@)
            &&& source.field("properties"@) is None ==> taken.card is None
            &&& source.field("volume"@) matches Some(JsonView::Object(channels))
                ==> taken.volume_percent == quietest(channels, channels.len() as int)
        },
{
}

/// The sources that are listed are those that can be taken and are no monitor of an
/// output, in the order of the list.
pub proof fn monitors_are_left_out(sources: Seq<JsonView>, default_name: Seq<char>, n: int)
    requires
        0 <= n < sources.len(),
    ensures
        inputs_of(sources, default_name, 0).len() == 0,
        ({
            let name = sources[n].text_at("name"@);
            let monitor = name is Some && has_suffix(name->0, ".monitor"@);
            let before = inputs_of(sources, default_name, n);
            let after = inputs_of(sources, default_name, n + 1);
            &&& monitor || source_of(sources[n], default_name) is None ==> after == before
            &&& !monitor && source_of(sources[n], default_name) is Some ==> after == before.push(
                source_of(sources[n], default_name)->0,
            )
        }),
        sources_of(JsonView::List(sources), default_name) == Some(
            inputs_of(sources, default_name, sources.len() as int),
        ),
{
}

/// A profile is offered where it can be selected and has a source. One that does not
/// say whether it is available is.
pub proof fn which_profiles_are_offered(profile: JsonView)
    ensures
        profile.field("available"@) == Some(JsonView::Bool(false)) ==> !captures(profile),
        profile.field("available"@) != Some(JsonView::Bool(false)) ==> (captures(profile) <==> (
        profile.field("sources"@) matches Some(JsonView::Number { whole: Some(n), .. }) && n > 0)),
{
}

/// A profile goes by its rank, 0 where it says none, and is called by its name where
/// it has no description.
pub proof fn a_profile_is_what_it_says(name: Seq<char>, profile: JsonView)
    ensures
        ({
            let item = profile_of(name, profile);
            &&& item.profile.name == name
            &&& profile.text_at("description"@) matches Some(text) ==> item.profile.description
                == text
            &&& profile.text_at("description"@) is None ==> item.profile.description == name
            &&& profile.field("priority"@) matches Some(JsonView::Number { signed: Some(n), .. })
                ==> item.rank == n
            &&& profile.field("priority"@) is None ==> item.rank == 0
        }),
{
}

/// The higher rank goes first, and of two alike the one first in the alphabet.
pub proof fn the_higher_rank_goes_first(a: Ranked, b: Ranked)
    ensures
        a.rank > b.rank ==> goes_first(a, b) && !goes_first(b, a),
        a.rank == b.rank ==> (goes_first(a, b) <==> before(a.profile.name, b.profile.name)),
{
}

proof fn lemma_rank_place(sorted: Seq<Ranked>, item: Ranked, i: int)
    requires
        0 <= i <= sorted.len(),
    ensures
        i <= rank_place(sorted, item, i) <= sorted.len(),
    decreases sorted.len() - i,
{
    if i < sorted.len() && !goes_first(item, sorted[i]) {
        lemma_rank_place(sorted, item, i + 1);
    }
}

/// Every profile that captures is offered.
pub proof fn every_capturing_profile_is_offered(
    profiles: Seq<(Seq<char>, JsonView)>,
    n: int,
    k: int,
)
    requires
        0 <= k < n <= profiles.len(),
        captures(profiles[k].1),
    ensures
        ranked(profiles, n).contains(profile_of(profiles[k].0, profiles[k].1)),
    decreases n,
{
    let rest = ranked(profiles, n - 1);
    let (name, profile) = profiles[n - 1];
    let wanted = profile_of(profiles[k].0, profiles[k].1);
    if captures(profile) {
        let item = profile_of(name, profile);
        let at = rank_place(rest, item, 0);
        lemma_rank_place(rest, item, 0);
        let all = rest.insert(at, item);
        if k == n - 1 {
            assert(all[at] == wanted);
        } else {
            every_capturing_profile_is_offered(profiles, n - 1, k);
            let j = choose|j: int| 0 <= j < rest.len() && rest[j] == wanted;
            if j < at {
                assert(all[j] == wanted);
            } else {
                assert(all[j + 1] == wanted);
            }
        }
    } else {
        every_capturing_profile_is_offered(profiles, n - 1, k);
    }
}

/// A card is taken where it says its name, its profile and its profiles, and offers
/// those that capture.
pub proof fn a_card_is_what_it_says(card: JsonView, cards: Seq<JsonView>, n: int)
    ensures
        card_of(card) is Some <==> {
            &&& card.text_at("name"@) is Some
            &&& card.text_at("active_profile"@) is Some
            &&& card.field("profiles"@) matches Some(JsonView::Object(_))
        },
        card_of(card) matches Some(taken) ==> {
            &&& card.text_at("name"@) == Some(taken.name)
            &&& card.text_at("active_profile"@) == Some(taken.active_profile)
            &&& card.field("profiles"@) matches Some(JsonView::Object(profiles)) && taken.profiles
                == unranked(ranked(profiles, profiles.len() as int))
        },
        cards_among(cards, 0).len() == 0,
        0 <= n < cards.len() ==> cards_among(cards, n + 1) == (match card_of(cards[n]) {
            Some(taken) => cards_among(cards, n).push(taken),
            None => cards_among(cards, n),
        }),
        cards_of(JsonView::List(cards)) == Some(cards_among(cards, cards.len() as int)),
{
}

/// A list has one part more than it has commas.
pub proof fn commas_part_a_list(a: Seq<char>, b: Seq<char>)
    ensures
        (forall|k: int| 0 <= k < a.len() ==> #[trigger] a[k] != ',') ==> parts(a) == 1,
        parts(a + seq![','] + b) == parts(a) + parts(b),
    decreases a.len() + b.len(),
{
    if a.len() > 0 {
        let short = a.drop_last();
        commas_part_a_list(short, Seq::empty());
        if forall|k: int| 0 <= k < a.len() ==> #[trigger] a[k] != ',' {
            assert(a.last() == a[a.len() - 1]);
            assert forall|k: int| 0 <= k < short.len() implies #[trigger] short[k] != ',' by {
                assert(short[k] == a[k]);
            }
        }
    }
    let all = a + seq![','] + b;
    if b.len() == 0 {
        assert(all.drop_last() =~= a);
        assert(all.last() == ',');
    } else {
        commas_part_a_list(a, b.drop_last());
        assert(all.drop_last() =~= a + seq![','] + b.drop_last());
        assert(all.last() == b.last());
    }
}

/// A capture asks for raw 32-bit floats at the engine's rate and the source's width,
/// neither mapped nor mixed, 20 ms deep. It names the source where there is one, and
/// the channel map where that names as many channels as the source has.
pub proof fn a_capture_asks_for_the_source_as_it_is(
    source: Option<Seq<char>>,
    channels: u16,
    sample_rate: u32,
    channel_map: Option<Seq<char>>,
)
    ensures
        ({
            let args = capture_args(source, channels, sample_rate, channel_map);
            let mapped = channel_map is Some && parts(channel_map->0) == channels;
            &&& args.len() == 8 + (if source is Some {
                1int
            } else {
                0int
            }) + (if mapped {
                1int
            } else {
                0int
            })
            &&& args[0] == "--raw"@
            &&& args[1] == "--format=float32le"@
            &&& args[2] == "--rate="@ + numeral(sample_rate as nat)
            &&& args[3] == "--channels="@ + numeral(channels as nat)
            &&& args[4] == "--no-remap"@
            &&& args[5] == "--no-remix"@
            &&& args[6] == "--latency-msec="@ + numeral(20)
            &&& args[7] == "--client-name=tribd"@
            &&& source matches Some(name) ==> args[8] == "--device="@ + name
            &&& mapped ==> args.last() == "--channel-map="@ + channel_map->0
        }),
{
}

/// Four bytes make a sample, the lowest first.
pub proof fn four_bytes_make_a_sample(bytes: Seq<u8>, at: int)
    ensures
        ({
            let bits = sample_bits(bytes, at) as int;
            &&& bits % 256 == bytes[at]
            &&& bits / 256 % 256 == bytes[at + 1]
            &&& bits / 65536 % 256 == bytes[at + 2]
            &&& bits / 16777216 == bytes[at + 3]
        }),
{
    lemma_four_bytes(bytes[at + 3], bytes[at + 2], bytes[at + 1], bytes[at]);
}

/// Of some bytes, whole frames are taken, all of them that there are.
pub proof fn whole_frames_are_taken(bytes: int, channels: int)
    requires
        0 <= bytes,
        0 < channels,
    ensures
        whole_samples(bytes, channels) % channels == 0,
        whole_samples(bytes, channels) * 4 <= bytes,
        bytes < (whole_samples(bytes, channels) + channels) * 4,
{
    let width = channels * 4;
    let frames = bytes / width;
    assert(whole_samples(bytes, channels) == frames * channels);
    assert(frames * width <= bytes < frames * width + width) by (nonlinear_arith)
        requires
            frames == bytes / width,
            width > 0,
            0 <= bytes,
    ;
    assert(frames * channels * 4 == frames * width) by (nonlinear_arith)
        requires
            width == channels * 4,
    ;
    lemma_mod_multiples_basic(frames, channels);
}

} // verus!
