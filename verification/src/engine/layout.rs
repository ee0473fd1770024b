//! What holds of every set of dispatch tables: each slot names a node that is
//! there, and each control of the document has an index that reaches it.

use vstd::prelude::*;

use crate::console::bus::BusView;
use crate::console::eq::EqBandKind;
use crate::console::fx::FxParams;
use crate::console::fx::FxView;
use crate::console::id::BusId;
use crate::console::id::InstrumentId;
use crate::console::id::StripId;
use crate::console::instrument::InstrumentView;
use crate::console::mix::bus_ids;
use crate::console::mix::instrument_ids;
use crate::console::mix::strip_ids;
use crate::console::mix::MixerView;
use crate::console::output::OutputSource;
use crate::console::strip::StripView;
use crate::engine::compiled::aux_ids;
use crate::engine::compiled::band_code;
use crate::engine::compiled::bus_code;
use crate::engine::compiled::buses_entered;
use crate::engine::compiled::direct_out;
use crate::engine::compiled::direct_outs;
use crate::engine::compiled::fx_code;
use crate::engine::compiled::fx_entered;
use crate::engine::compiled::graph_of;
use crate::engine::compiled::is_aux;
use crate::engine::compiled::master_entered;
use crate::engine::compiled::outs_entered;
use crate::engine::compiled::rack_base;
use crate::engine::compiled::rack_channel;
use crate::engine::compiled::send_code;
use crate::engine::compiled::sends_entered;
use crate::engine::compiled::strip_code;
use crate::engine::compiled::strip_entered;
use crate::engine::compiled::strips_entered;
use crate::engine::compiled::tables_of;
use crate::engine::compiled::DirectOut;
use crate::engine::compiled::EqSlot;
use crate::engine::compiled::FlagSlot;
use crate::engine::compiled::ParamSlot;
use crate::engine::compiled::StripSource;
use crate::engine::compiled::Tables;
use crate::engine::compiled::TapPoint;
use crate::engine::compiled::MAX_INSTRUMENT_CHANNELS;
use crate::engine::dispatch::flag_fits;
use crate::engine::dispatch::param_fits;
use crate::engine::dispatch::tables_fit;
use crate::engine::rings::EqIx;
use crate::engine::rings::FlagIx;
use crate::engine::rings::ParamIx;
use crate::engine::frame::outs_fit;
use crate::engine::slots::devices_of;
use crate::engine::slots::no_two_channels_share_a_place;
use crate::engine::slots::tidy;
use crate::engine::slots::within_frame;
use crate::engine::slots::SlotView;
use crate::engine::slots::MAX_OUTPUT_CHANNELS;
use crate::seqs::filter_origins;

verus! {

/// How many nodes of each kind there are.
pub ghost struct Sizes {
    pub strips: nat,
    pub sends: nat,
    pub buses: nat,
    pub fx: nat,
    pub outs: nat,
}

spec fn param_within(slot: ParamSlot, z: Sizes) -> bool {
    match slot {
        ParamSlot::StripGain(i) => i < z.strips,
        ParamSlot::StripFader(i) => i < z.strips,
        ParamSlot::StripPan(i) => i < z.strips,
        ParamSlot::StripMute(i) => i < z.strips,
        ParamSlot::StripSend(i, k) => i < z.strips && k < z.sends,
        ParamSlot::BusFader(i) => i < z.buses,
        ParamSlot::BusMute(i) => i < z.buses,
        ParamSlot::FxRoom(i) => i < z.fx,
        ParamSlot::FxDamp(i) => i < z.fx,
        ParamSlot::FxTime(i) => i < z.fx,
        ParamSlot::FxFeedback(i) => i < z.fx,
        ParamSlot::FxReturn(i) => i < z.fx,
        ParamSlot::MasterFader => true,
    }
}

spec fn flag_within(slot: FlagSlot, z: Sizes) -> bool {
    match slot {
        FlagSlot::StripPfl(i) => i < z.strips,
        FlagSlot::StripEq(i) => i < z.strips,
        FlagSlot::StripSendPre(i, k) => i < z.strips && k < z.sends,
        FlagSlot::BusPfl(i) => i < z.buses,
        FlagSlot::OutputPre(i) => i < z.outs,
    }
}

spec fn tables_within(t: Tables, z: Sizes) -> bool {
    &&& forall|k: int| 0 <= k < t.params.len() ==> param_within(#[trigger] t.params[k], z)
    &&& forall|k: int| 0 <= k < t.flags.len() ==> flag_within(#[trigger] t.flags[k], z)
    &&& forall|k: int| 0 <= k < t.eqs.len() ==> (#[trigger] t.eqs[k]).strip < z.strips
}

/// Whether the tables of `u` begin with those of `t`.
spec fn grown(t: Tables, u: Tables) -> bool {
    &&& t.params.len() <= u.params.len()
    &&& t.flags.len() <= u.flags.len()
    &&& t.eqs.len() <= u.eqs.len()
    &&& forall|k: int| 0 <= k < t.params.len() ==> t.params[k] == #[trigger] u.params[k]
    &&& forall|k: int| 0 <= k < t.flags.len() ==> t.flags[k] == #[trigger] u.flags[k]
    &&& forall|k: int| 0 <= k < t.eqs.len() ==> t.eqs[k] == #[trigger] u.eqs[k]
}

proof fn lemma_sends(t: Tables, i: u16, id: StripId, aux: Seq<BusId>, n: int, z: Sizes)
    requires
        0 <= n <= aux.len(),
        tables_within(t, z),
        i < z.strips,
        aux.len() <= z.sends,
    ensures
        tables_within(sends_entered(t, i, id, aux, n), z),
        grown(t, sends_entered(t, i, id, aux, n)),
    decreases n,
{
    if n > 0 {
        lemma_sends(t, i, id, aux, n - 1, z);
    }
}

proof fn lemma_strips(strips: Seq<StripView>, aux: Seq<BusId>, n: int, z: Sizes)
    requires
        0 <= n <= strips.len(),
        strips.len() <= z.strips,
        aux.len() <= z.sends,
    ensures
        tables_within(strips_entered(strips, aux, n), z),
    decreases n,
{
    if n > 0 {
        lemma_strips(strips, aux, n - 1, z);
        let t = strips_entered(strips, aux, n - 1);
        let u = strip_entered(t, (n - 1) as u16, strips[n - 1].id);
        assert(tables_within(u, z));
        lemma_sends(u, (n - 1) as u16, strips[n - 1].id, aux, aux.len() as int, z);
    }
}

proof fn lemma_buses(t: Tables, buses: Seq<BusView>, n: int, z: Sizes)
    requires
        0 <= n <= buses.len(),
        tables_within(t, z),
        buses.len() <= z.buses,
    ensures
        tables_within(buses_entered(t, buses, n), z),
        grown(t, buses_entered(t, buses, n)),
    decreases n,
{
    if n > 0 {
        lemma_buses(t, buses, n - 1, z);
    }
}

proof fn lemma_fx(t: Tables, fx: Seq<FxView>, n: int, z: Sizes)
    requires
        0 <= n <= fx.len(),
        tables_within(t, z),
        fx.len() <= z.fx,
    ensures
        tables_within(fx_entered(t, fx, n), z),
        grown(t, fx_entered(t, fx, n)),
    decreases n,
{
    if n > 0 {
        lemma_fx(t, fx, n - 1, z);
    }
}

proof fn lemma_outs(t: Tables, outs: Seq<DirectOut>, n: int, z: Sizes)
    requires
        0 <= n <= outs.len(),
        tables_within(t, z),
        outs.len() <= z.outs,
    ensures
        tables_within(outs_entered(t, outs, n), z),
        grown(t, outs_entered(t, outs, n)),
    decreases n,
{
    if n > 0 {
        lemma_outs(t, outs, n - 1, z);
    }
}

/// Every slot of a compiled document's tables names a node that is there.
pub proof fn compiled_tables_fit(
    s: MixerView,
    block_size: usize,
    inputs: Seq<SlotView>,
    outputs: Seq<SlotView>,
)
    ensures
        tables_fit(graph_of(s, block_size, inputs, outputs)),
{
    let outs = direct_outs(s, outputs, s.outputs.len() as int);
    let aux = aux_ids(s.buses);
    let z = Sizes {
        strips: s.strips.len(),
        sends: aux.len(),
        buses: s.buses.len(),
        fx: s.fx.len(),
        outs: outs.len(),
    };
    let a = strips_entered(s.strips, aux, s.strips.len() as int);
    let b = buses_entered(a, s.buses, s.buses.len() as int);
    let c = fx_entered(b, s.fx, s.fx.len() as int);
    let d = master_entered(c);
    lemma_strips(s.strips, aux, s.strips.len() as int, z);
    lemma_buses(a, s.buses, s.buses.len() as int, z);
    lemma_fx(b, s.fx, s.fx.len() as int, z);
    assert(tables_within(d, z));
    lemma_outs(d, outs, outs.len() as int, z);
    let t = tables_of(s, outputs);
    let g = graph_of(s, block_size, inputs, outputs);
    assert(tables_within(t, z));
    assert forall|k: int| 0 <= k < g.params.len() implies param_fits(
        g,
        #[trigger] g.params[k],
    ) by {
        assert(param_within(t.params[k], z));
    }
    assert forall|k: int| 0 <= k < g.flags.len() implies flag_fits(g, #[trigger] g.flags[k]) by {
        assert(flag_within(t.flags[k], z));
    }
    assert forall|k: int| 0 <= k < g.eqs.len() implies (#[trigger] g.eqs[k]).strip
        < g.strips.len() by {
        assert(t.eqs[k].strip < z.strips);
    }
}

/// Whether a map of indices leads from a key to a slot of the table.
pub open spec fn leads_to_param(
    t: Tables,
    map: Map<u64, ParamIx>,
    key: u64,
    slot: ParamSlot,
) -> bool {
    &&& map.contains_key(key)
    &&& map[key].0 < t.params.len()
    &&& t.params[map[key].0 as int] == slot
}

pub open spec fn leads_to_flag(t: Tables, map: Map<u64, FlagIx>, key: u64, slot: FlagSlot) -> bool {
    &&& map.contains_key(key)
    &&& map[key].0 < t.flags.len()
    &&& t.flags[map[key].0 as int] == slot
}

pub open spec fn leads_to_eq(t: Tables, map: Map<u64, EqIx>, key: u64, slot: EqSlot) -> bool {
    &&& map.contains_key(key)
    &&& map[key].0 < t.eqs.len()
    &&& t.eqs[map[key].0 as int] == slot
}

/// Whether every control of the strip at `i` can be reached.
pub open spec fn strip_mapped(t: Tables, i: int, id: StripId) -> bool {
    let key = strip_code(id);
    let at = i as u16;
    &&& leads_to_param(t, t.map.gain, key, ParamSlot::StripGain(at))
    &&& leads_to_param(t, t.map.fader, key, ParamSlot::StripFader(at))
    &&& leads_to_param(t, t.map.pan, key, ParamSlot::StripPan(at))
    &&& leads_to_param(t, t.map.mute, key, ParamSlot::StripMute(at))
    &&& leads_to_flag(t, t.map.pfl, key, FlagSlot::StripPfl(at))
    &&& leads_to_flag(t, t.map.eq_enabled, key, FlagSlot::StripEq(at))
    &&& forall|band: EqBandKind|
        leads_to_eq(
            t,
            t.map.eq_band,
            #[trigger] band_code(id, band),
            EqSlot { strip: at, band },
        )
}

/// Whether the strip at `i` can be sent to the aux at `k`.
pub open spec fn send_mapped(t: Tables, i: int, id: StripId, k: int, aux: BusId) -> bool {
    let key = send_code(id, aux);
    &&& leads_to_param(t, t.map.send, key, ParamSlot::StripSend(i as u16, k as u16))
    &&& leads_to_flag(t, t.map.send_pre, key, FlagSlot::StripSendPre(i as u16, k as u16))
}

/// Whether every control of the bus at `i` can be reached.
pub open spec fn bus_mapped(t: Tables, i: int, id: BusId) -> bool {
    let key = bus_code(id);
    let at = i as u16;
    &&& leads_to_param(t, t.map.bus_fader, key, ParamSlot::BusFader(at))
    &&& leads_to_param(t, t.map.bus_mute, key, ParamSlot::BusMute(at))
    &&& leads_to_flag(t, t.map.bus_pfl, key, FlagSlot::BusPfl(at))
}

/// Whether every control of the effects unit at `i` can be reached.
pub open spec fn fx_mapped(t: Tables, i: int, unit: FxView) -> bool {
    let key = fx_code(unit.id);
    let at = i as u16;
    &&& leads_to_param(t, t.map.fx_return, key, ParamSlot::FxReturn(at))
    &&& match unit.params {
        FxParams::Reverb { .. } => {
            &&& leads_to_param(t, t.map.fx_room, key, ParamSlot::FxRoom(at))
            &&& leads_to_param(t, t.map.fx_damp, key, ParamSlot::FxDamp(at))
        },
        FxParams::Delay { .. } => {
            &&& leads_to_param(t, t.map.fx_time, key, ParamSlot::FxTime(at))
            &&& leads_to_param(t, t.map.fx_feedback, key, ParamSlot::FxFeedback(at))
        },
    }
}

/// Whether the tap switch of the direct out at `j` can be reached.
pub open spec fn out_mapped(t: Tables, j: int, out: DirectOut) -> bool {
    leads_to_flag(t, t.map.output_pre, out.patch as u64, FlagSlot::OutputPre(j as u16))
}

/// Whether the indices of the tables can be told apart.
pub open spec fn indexable(t: Tables) -> bool {
    &&& t.params.len() <= 0x1_0000
    &&& t.flags.len() <= 0x1_0000
    &&& t.eqs.len() <= 0x1_0000
}

spec fn same_strip_maps(t: Tables, u: Tables) -> bool {
    &&& u.map.gain == t.map.gain
    &&& u.map.fader == t.map.fader
    &&& u.map.pan == t.map.pan
    &&& u.map.mute == t.map.mute
    &&& u.map.pfl == t.map.pfl
    &&& u.map.eq_enabled == t.map.eq_enabled
    &&& u.map.eq_band == t.map.eq_band
}

spec fn same_send_maps(t: Tables, u: Tables) -> bool {
    &&& u.map.send == t.map.send
    &&& u.map.send_pre == t.map.send_pre
}

spec fn same_bus_maps(t: Tables, u: Tables) -> bool {
    &&& u.map.bus_fader == t.map.bus_fader
    &&& u.map.bus_mute == t.map.bus_mute
    &&& u.map.bus_pfl == t.map.bus_pfl
}

spec fn same_fx_maps(t: Tables, u: Tables) -> bool {
    &&& u.map.fx_return == t.map.fx_return
    &&& u.map.fx_room == t.map.fx_room
    &&& u.map.fx_damp == t.map.fx_damp
    &&& u.map.fx_time == t.map.fx_time
    &&& u.map.fx_feedback == t.map.fx_feedback
}

proof fn lemma_strip_kept(t: Tables, u: Tables, i: int, id: StripId)
    requires
        strip_mapped(t, i, id),
        grown(t, u),
        same_strip_maps(t, u),
    ensures
        strip_mapped(u, i, id),
{
    assert forall|band: EqBandKind|
        leads_to_eq(
            u,
            u.map.eq_band,
            #[trigger] band_code(id, band),
            EqSlot { strip: i as u16, band },
        ) by {
        assert(leads_to_eq(
            t,
            t.map.eq_band,
            band_code(id, band),
            EqSlot { strip: i as u16, band },
        ));
    }
}

/// What entering a strip's sends leaves, and what it adds.
proof fn lemma_sends_mapped(t: Tables, i: int, id: StripId, aux: Seq<BusId>, n: int)
    requires
        0 <= n <= aux.len(),
        aux.no_duplicates(),
        indexable(sends_entered(t, i as u16, id, aux, n)),
    ensures
        grown(t, sends_entered(t, i as u16, id, aux, n)),
        same_strip_maps(t, sends_entered(t, i as u16, id, aux, n)),
        forall|k: int|
            0 <= k < n ==> send_mapped(
                sends_entered(t, i as u16, id, aux, n),
                i,
                id,
                k,
                #[trigger] aux[k],
            ),
        forall|o: StripId, l: int, k: int, b: BusId|
            o != id && send_mapped(t, l, o, k, b) ==> #[trigger] send_mapped(
                sends_entered(t, i as u16, id, aux, n),
                l,
                o,
                k,
                b,
            ),
    decreases n,
{
    if n > 0 {
        let u = sends_entered(t, i as u16, id, aux, n - 1);
        let v = sends_entered(t, i as u16, id, aux, n);
        assert(u.params.len() < v.params.len() && u.flags.len() < v.flags.len());
        lemma_sends_mapped(t, i, id, aux, n - 1);
        assert(v.params[u.params.len() as int] == ParamSlot::StripSend(
            i as u16,
            (n - 1) as u16,
        ));
        assert(v.flags[u.flags.len() as int] == FlagSlot::StripSendPre(i as u16, (n - 1) as u16));
        assert forall|k: int| 0 <= k < n implies send_mapped(v, i, id, k, #[trigger] aux[k]) by {
            if k < n - 1 {
                assert(send_mapped(u, i, id, k, aux[k]));
                assert(aux[k] != aux[n - 1]);
                assert(send_code(id, aux[k]) != send_code(id, aux[n - 1]));
            }
        }
        assert forall|o: StripId, l: int, k: int, b: BusId|
            o != id && send_mapped(t, l, o, k, b) implies #[trigger] send_mapped(
            v,
            l,
            o,
            k,
            b,
        ) by {
            assert(send_mapped(u, l, o, k, b));
            assert(send_code(o, b) != send_code(id, aux[n - 1]));
        }
    }
}

/// What entering a strip leaves, and what it adds.
proof fn lemma_strip_mapped(t: Tables, i: int, id: StripId)
    requires
        indexable(strip_entered(t, i as u16, id)),
    ensures
        grown(t, strip_entered(t, i as u16, id)),
        same_send_maps(t, strip_entered(t, i as u16, id)),
        strip_mapped(strip_entered(t, i as u16, id), i, id),
        forall|l: int, o: StripId|
            o != id && strip_mapped(t, l, o) ==> #[trigger] strip_mapped(
                strip_entered(t, i as u16, id),
                l,
                o,
            ),
{
    let u = strip_entered(t, i as u16, id);
    let p = t.params.len() as int;
    let f = t.flags.len() as int;
    let e = t.eqs.len() as int;
    assert(u.params[p] == ParamSlot::StripGain(i as u16));
    assert(u.params[p + 1] == ParamSlot::StripFader(i as u16));
    assert(u.params[p + 2] == ParamSlot::StripPan(i as u16));
    assert(u.params[p + 3] == ParamSlot::StripMute(i as u16));
    assert(u.flags[f] == FlagSlot::StripPfl(i as u16));
    assert(u.flags[f + 1] == FlagSlot::StripEq(i as u16));
    assert(u.eqs[e].band == EqBandKind::LowShelf);
    assert(u.eqs[e + 1].band == EqBandKind::Peak);
    assert(u.eqs[e + 2].band == EqBandKind::HighShelf);
    assert forall|l: int, o: StripId| o != id && strip_mapped(t, l, o) implies #[trigger]
    strip_mapped(u, l, o) by {
        assert forall|band: EqBandKind|
            leads_to_eq(
                u,
                u.map.eq_band,
                #[trigger] band_code(o, band),
                EqSlot { strip: l as u16, band },
            ) by {
            assert(leads_to_eq(
                t,
                t.map.eq_band,
                band_code(o, band),
                EqSlot { strip: l as u16, band },
            ));
            assert(band_code(o, band) != band_code(id, EqBandKind::LowShelf));
            assert(band_code(o, band) != band_code(id, EqBandKind::Peak));
            assert(band_code(o, band) != band_code(id, EqBandKind::HighShelf));
        }
    }
}

spec fn distinct_strips(strips: Seq<StripView>) -> bool {
    forall|i: int, j: int|
        0 <= i < j < strips.len() ==> (#[trigger] strips[i]).id != (#[trigger] strips[j]).id
}

spec fn distinct_buses(buses: Seq<BusView>) -> bool {
    forall|i: int, j: int|
        0 <= i < j < buses.len() ==> (#[trigger] buses[i]).id != (#[trigger] buses[j]).id
}

proof fn lemma_strips_mapped(strips: Seq<StripView>, aux: Seq<BusId>, n: int)
    requires
        0 <= n <= strips.len(),
        distinct_strips(strips),
        aux.no_duplicates(),
        indexable(strips_entered(strips, aux, n)),
    ensures
        forall|i: int|
            0 <= i < n ==> strip_mapped(
                strips_entered(strips, aux, n),
                i,
                (#[trigger] strips[i]).id,
            ),
        forall|i: int, k: int|
            0 <= i < n && 0 <= k < aux.len() ==> send_mapped(
                strips_entered(strips, aux, n),
                i,
                (#[trigger] strips[i]).id,
                k,
                #[trigger] aux[k],
            ),
    decreases n,
{
    if n > 0 {
        let t = strips_entered(strips, aux, n - 1);
        let id = strips[n - 1].id;
        let at = (n - 1) as u16;
        let u = strip_entered(t, at, id);
        let v = sends_entered(u, at, id, aux, aux.len() as int);
        lemma_sends_mapped(u, n - 1, id, aux, aux.len() as int);
        assert(grown(u, v));
        lemma_strip_mapped(t, n - 1, id);
        assert(grown(t, u));
        lemma_strips_mapped(strips, aux, n - 1);
        assert forall|i: int| 0 <= i < n implies strip_mapped(v, i, (#[trigger] strips[i]).id) by {
            if i < n - 1 {
                assert(strip_mapped(t, i, strips[i].id));
                assert(strips[i].id != strips[n - 1].id);
            }
            assert(strip_mapped(u, i, strips[i].id));
            lemma_strip_kept(u, v, i, strips[i].id);
        }
        assert forall|i: int, k: int| 0 <= i < n && 0 <= k < aux.len() implies send_mapped(
            v,
            i,
            (#[trigger] strips[i]).id,
            k,
            #[trigger] aux[k],
        ) by {
            if i < n - 1 {
                assert(strips[i].id != strips[n - 1].id);
                assert(send_mapped(t, i, strips[i].id, k, aux[k]));
                assert(send_mapped(u, i, strips[i].id, k, aux[k]));
            }
        }
    }
}

proof fn lemma_buses_mapped(t: Tables, buses: Seq<BusView>, n: int)
    requires
        0 <= n <= buses.len(),
        distinct_buses(buses),
        indexable(buses_entered(t, buses, n)),
    ensures
        grown(t, buses_entered(t, buses, n)),
        same_strip_maps(t, buses_entered(t, buses, n)),
        same_send_maps(t, buses_entered(t, buses, n)),
        forall|i: int|
            0 <= i < n ==> bus_mapped(buses_entered(t, buses, n), i, (#[trigger] buses[i]).id),
    decreases n,
{
    if n > 0 {
        let u = buses_entered(t, buses, n - 1);
        let v = buses_entered(t, buses, n);
        assert(u.params.len() < v.params.len() && u.flags.len() < v.flags.len());
        lemma_buses_mapped(t, buses, n - 1);
        assert(v.params[u.params.len() as int] == ParamSlot::BusFader((n - 1) as u16));
        assert(v.params[u.params.len() as int + 1] == ParamSlot::BusMute((n - 1) as u16));
        assert(v.flags[u.flags.len() as int] == FlagSlot::BusPfl((n - 1) as u16));
        assert forall|i: int| 0 <= i < n implies bus_mapped(v, i, (#[trigger] buses[i]).id) by {
            if i < n - 1 {
                assert(buses[i].id != buses[n - 1].id);
                assert(bus_mapped(u, i, buses[i].id));
            }
        }
    }
}

proof fn lemma_fx_mapped(t: Tables, fx: Seq<FxView>, n: int)
    requires
        0 <= n <= fx.len(),
        forall|i: int, j: int|
            0 <= i < j < fx.len() ==> (#[trigger] fx[i]).id != (#[trigger] fx[j]).id,
        indexable(fx_entered(t, fx, n)),
    ensures
        grown(t, fx_entered(t, fx, n)),
        same_strip_maps(t, fx_entered(t, fx, n)),
        same_send_maps(t, fx_entered(t, fx, n)),
        same_bus_maps(t, fx_entered(t, fx, n)),
        forall|i: int| 0 <= i < n ==> fx_mapped(fx_entered(t, fx, n), i, #[trigger] fx[i]),
    decreases n,
{
    if n > 0 {
        let u = fx_entered(t, fx, n - 1);
        let v = fx_entered(t, fx, n);
        assert(u.params.len() < v.params.len() && u.flags.len() <= v.flags.len());
        lemma_fx_mapped(t, fx, n - 1);
        let p = u.params.len() as int;
        assert(v.params[p] == ParamSlot::FxReturn((n - 1) as u16));
        assert(v.params[p + 1] == match fx[n - 1].params {
            FxParams::Reverb { .. } => ParamSlot::FxRoom((n - 1) as u16),
            FxParams::Delay { .. } => ParamSlot::FxTime((n - 1) as u16),
        });
        assert(v.params[p + 2] == match fx[n - 1].params {
            FxParams::Reverb { .. } => ParamSlot::FxDamp((n - 1) as u16),
            FxParams::Delay { .. } => ParamSlot::FxFeedback((n - 1) as u16),
        });
        assert forall|i: int| 0 <= i < n implies fx_mapped(v, i, #[trigger] fx[i]) by {
            if i < n - 1 {
                assert(fx[i].id != fx[n - 1].id);
                assert(fx_mapped(u, i, fx[i]));
            }
        }
    }
}

proof fn lemma_outs_mapped(t: Tables, outs: Seq<DirectOut>, n: int)
    requires
        0 <= n <= outs.len(),
        forall|i: int, j: int|
            0 <= i < j < outs.len() ==> (#[trigger] outs[i]).patch < (#[trigger] outs[j]).patch,
        indexable(outs_entered(t, outs, n)),
    ensures
        grown(t, outs_entered(t, outs, n)),
        same_strip_maps(t, outs_entered(t, outs, n)),
        same_send_maps(t, outs_entered(t, outs, n)),
        same_bus_maps(t, outs_entered(t, outs, n)),
        same_fx_maps(t, outs_entered(t, outs, n)),
        outs_entered(t, outs, n).map.master_fader == t.map.master_fader,
        forall|j: int| 0 <= j < n ==> out_mapped(outs_entered(t, outs, n), j, #[trigger] outs[j]),
    decreases n,
{
    if n > 0 {
        let u = outs_entered(t, outs, n - 1);
        let v = outs_entered(t, outs, n);
        assert(u.flags.len() < v.flags.len());
        lemma_outs_mapped(t, outs, n - 1);
        assert(v.flags[u.flags.len() as int] == FlagSlot::OutputPre((n - 1) as u16));
        assert forall|j: int| 0 <= j < n implies out_mapped(v, j, #[trigger] outs[j]) by {
            if j < n - 1 {
                assert(outs[j].patch < outs[n - 1].patch);
                assert(out_mapped(u, j, outs[j]));
            }
        }
    }
}

/// The direct outs come in the order of the patch bay.
proof fn lemma_outs_in_order(s: MixerView, outputs: Seq<SlotView>, n: int)
    requires
        0 <= n <= s.outputs.len() <= usize::MAX,
    ensures
        forall|j: int|
            0 <= j < direct_outs(s, outputs, n).len() ==> (#[trigger] direct_outs(
                s,
                outputs,
                n,
            )[j]).patch < n,
        forall|i: int, j: int|
            0 <= i < j < direct_outs(s, outputs, n).len() ==> (#[trigger] direct_outs(
                s,
                outputs,
                n,
            )[i]).patch < (#[trigger] direct_outs(s, outputs, n)[j]).patch,
    decreases n,
{
    if n > 0 {
        lemma_outs_in_order(s, outputs, n - 1);
    }
}

/// Every control of the document has an index that reaches it, as long as
/// there are no more controls than indices. That needs every id to be unique.
pub proof fn every_control_can_be_reached(s: MixerView, outputs: Seq<SlotView>)
    requires
        forall|i: int, j: int|
            0 <= i < j < s.strips.len() ==> (#[trigger] s.strips[i]).id != (
            #[trigger] s.strips[j]).id,
        forall|i: int, j: int|
            0 <= i < j < s.buses.len() ==> (#[trigger] s.buses[i]).id != (
            #[trigger] s.buses[j]).id,
        forall|i: int, j: int|
            0 <= i < j < s.fx.len() ==> (#[trigger] s.fx[i]).id != (#[trigger] s.fx[j]).id,
        s.outputs.len() <= usize::MAX,
        indexable(tables_of(s, outputs)),
    ensures
        forall|i: int|
            0 <= i < s.strips.len() ==> strip_mapped(
                tables_of(s, outputs),
                i,
                (#[trigger] s.strips[i]).id,
            ),
        forall|i: int, k: int|
            0 <= i < s.strips.len() && 0 <= k < aux_ids(s.buses).len() ==> send_mapped(
                tables_of(s, outputs),
                i,
                (#[trigger] s.strips[i]).id,
                k,
                #[trigger] aux_ids(s.buses)[k],
            ),
        forall|i: int|
            0 <= i < s.buses.len() ==> bus_mapped(
                tables_of(s, outputs),
                i,
                (#[trigger] s.buses[i]).id,
            ),
        forall|i: int|
            0 <= i < s.fx.len() ==> fx_mapped(tables_of(s, outputs), i, #[trigger] s.fx[i]),
        ({
            let t = tables_of(s, outputs);
            t.map.master_fader matches Some(ix) && t.params[ix.0 as int]
                == ParamSlot::MasterFader
        }),
        forall|j: int|
            0 <= j < direct_outs(s, outputs, s.outputs.len() as int).len() ==> out_mapped(
                tables_of(s, outputs),
                j,
                #[trigger] direct_outs(s, outputs, s.outputs.len() as int)[j],
            ),
{
    let outs = direct_outs(s, outputs, s.outputs.len() as int);
    let aux = aux_ids(s.buses);
    let a = strips_entered(s.strips, aux, s.strips.len() as int);
    let b = buses_entered(a, s.buses, s.buses.len() as int);
    let c = fx_entered(b, s.fx, s.fx.len() as int);
    let d = master_entered(c);
    let t = tables_of(s, outputs);
    lemma_outs_in_order(s, outputs, s.outputs.len() as int);
    lemma_outs_mapped(d, outs, outs.len() as int);
    assert(grown(c, d));
    lemma_fx_mapped(b, s.fx, s.fx.len() as int);
    lemma_buses_mapped(a, s.buses, s.buses.len() as int);
    lemma_aux_distinct(s.buses);
    lemma_strips_mapped(s.strips, aux, s.strips.len() as int);
    assert(grown(a, t));
    assert(grown(b, t));
    assert(grown(c, t));
    assert forall|i: int| 0 <= i < s.strips.len() implies strip_mapped(
        t,
        i,
        (#[trigger] s.strips[i]).id,
    ) by {
        lemma_strip_kept(a, t, i, s.strips[i].id);
    }
    assert forall|i: int, k: int| 0 <= i < s.strips.len() && 0 <= k < aux.len() implies send_mapped(
        t,
        i,
        (#[trigger] s.strips[i]).id,
        k,
        #[trigger] aux_ids(s.buses)[k],
    ) by {
        assert(send_mapped(a, i, s.strips[i].id, k, aux[k]));
    }
    assert forall|i: int| 0 <= i < s.buses.len() implies bus_mapped(
        t,
        i,
        (#[trigger] s.buses[i]).id,
    ) by {
        assert(bus_mapped(b, i, s.buses[i].id));
    }
    assert forall|i: int| 0 <= i < s.fx.len() implies fx_mapped(t, i, #[trigger] s.fx[i]) by {
        assert(fx_mapped(c, i, s.fx[i]));
    }
    assert(d.params[c.params.len() as int] == ParamSlot::MasterFader);
    assert(t.params[c.params.len() as int] == ParamSlot::MasterFader);
}

proof fn lemma_aux_distinct(buses: Seq<BusView>)
    requires
        distinct_buses(buses),
    ensures
        aux_ids(buses).no_duplicates(),
{
    let from = filter_origins(buses, is_aux());
    let aux = aux_ids(buses);
    assert forall|i: int, j: int|
        0 <= i < aux.len() && 0 <= j < aux.len() && i != j implies aux[i] != aux[j] by {
        assert(aux[i] == buses[from[i]].id);
        assert(aux[j] == buses[from[j]].id);
    }
}

proof fn lemma_out_origin(s: MixerView, outputs: Seq<SlotView>, n: int)
    requires
        0 <= n <= s.outputs.len() <= usize::MAX,
    ensures
        forall|j: int|
            0 <= j < direct_outs(s, outputs, n).len() ==> {
                let out = #[trigger] direct_outs(s, outputs, n)[j];
                &&& out.patch < n
                &&& direct_out(s, outputs, out.patch as int) == Some(out)
            },
    decreases n,
{
    if n > 0 {
        lemma_out_origin(s, outputs, n - 1);
    }
}

/// Every direct out of a compiled document taps a node that is there and lands
/// on the plane.
pub proof fn compiled_outs_fit(s: MixerView, outputs: Seq<SlotView>)
    requires
        within_frame(outputs, MAX_OUTPUT_CHANNELS),
        s.outputs.len() <= usize::MAX,
    ensures
        outs_fit(
            direct_outs(s, outputs, s.outputs.len() as int),
            s.strips.len(),
            s.buses.len(),
        ),
{
    let outs = direct_outs(s, outputs, s.outputs.len() as int);
    lemma_out_origin(s, outputs, s.outputs.len() as int);
    assert forall|j: int| 0 <= j < outs.len() implies {
        &&& (#[trigger] outs[j]).channel < MAX_OUTPUT_CHANNELS
        &&& match outs[j].source {
            TapPoint::Strip(i) => i < s.strips.len(),
            TapPoint::Bus(i) => i < s.buses.len(),
            TapPoint::Master => true,
        }
    } by {
        let patch = s.outputs[outs[j].patch as int];
        devices_of(outputs).index_of_first_ensures(patch.device);
        match patch.source {
            OutputSource::Strip { id } => {
                strip_ids(s.strips).index_of_first_ensures(id);
            },
            OutputSource::Bus { id } => {
                bus_ids(s.buses).index_of_first_ensures(id);
            },
            OutputSource::Master => {},
        }
    }
}

/// Direct outs keep off the channels that the plane holds back, and two
/// patches on two jacks never meet on one channel.
pub proof fn compiled_outs_stay_apart(s: MixerView, outputs: Seq<SlotView>, reserved: int)
    requires
        within_frame(outputs, MAX_OUTPUT_CHANNELS),
        tidy(outputs, reserved),
        s.outputs.len() <= usize::MAX,
        forall|i: int, j: int|
            0 <= i < j < s.outputs.len() ==> {
                ||| (#[trigger] s.outputs[i]).device != (#[trigger] s.outputs[j]).device
                ||| s.outputs[i].channel != s.outputs[j].channel
            },
    ensures
        ({
            let outs = direct_outs(s, outputs, s.outputs.len() as int);
            &&& forall|j: int| 0 <= j < outs.len() ==> (#[trigger] outs[j]).channel >= reserved
            &&& forall|i: int, j: int|
                0 <= i < j < outs.len() ==> (#[trigger] outs[i]).channel != (
                #[trigger] outs[j]).channel
        }),
{
    let outs = direct_outs(s, outputs, s.outputs.len() as int);
    lemma_out_origin(s, outputs, s.outputs.len() as int);
    lemma_outs_in_order(s, outputs, s.outputs.len() as int);
    assert forall|j: int| 0 <= j < outs.len() implies (#[trigger] outs[j]).channel >= reserved by {
        let patch = s.outputs[outs[j].patch as int];
        no_two_channels_share_a_place(
            outputs,
            reserved,
            MAX_OUTPUT_CHANNELS,
            patch.device,
            patch.channel,
            patch.device,
            patch.channel,
        );
    }
    assert forall|i: int, j: int| 0 <= i < j < outs.len() implies (#[trigger] outs[i]).channel != (
    #[trigger] outs[j]).channel by {
        let a = s.outputs[outs[i].patch as int];
        let b = s.outputs[outs[j].patch as int];
        assert(outs[i].patch < outs[j].patch);
        assert(a.device != b.device || a.channel != b.channel);
        no_two_channels_share_a_place(
            outputs,
            reserved,
            MAX_OUTPUT_CHANNELS,
            a.device,
            a.channel,
            b.device,
            b.channel,
        );
    }
}

proof fn lemma_base_grows(instruments: Seq<InstrumentView>, p: int, q: int)
    requires
        0 <= p < q,
    ensures
        rack_base(instruments, p) + instruments[p].width() <= rack_base(instruments, q),
    decreases q - p,
{
    if p + 1 < q {
        lemma_base_grows(instruments, p, q - 1);
    }
}

/// Two instrument patches read the same channel of the rack only if they name
/// the same channel of the same instrument.
pub proof fn no_two_patches_share_a_rack_channel(
    s: MixerView,
    a: InstrumentId,
    i: u16,
    b: InstrumentId,
    j: u16,
    at: u16,
)
    requires
        rack_channel(s, a, i) == StripSource::Instrument(at),
        rack_channel(s, b, j) == StripSource::Instrument(at),
    ensures
        a == b && i == j,
        at < MAX_INSTRUMENT_CHANNELS,
{
    let ids = instrument_ids(s.instruments);
    ids.index_of_first_ensures(a);
    ids.index_of_first_ensures(b);
    let p = s.instrument_at(a)->0;
    let q = s.instrument_at(b)->0;
    if p < q {
        lemma_base_grows(s.instruments, p, q);
    } else if q < p {
        lemma_base_grows(s.instruments, q, p);
    }
}

} // verus!
