//! Microphone-in-use decision. The application lists PulseAudio / PipeWire
//! sources and source-outputs (capture streams); the microphone counts as in
//! use when a live capture reads from a real input, not a `.monitor` of an
//! output device.
use crate::text::{ends_with, has_suffix};
use vstd::prelude::*;

verus! {

/// One PulseAudio source (an input device or a monitor of an output).
#[derive(Debug)]
pub struct SourceInfo {
    pub index: u32,
    /// The sink this source monitors, if it is a monitor.
    pub monitor_of_sink: Option<u32>,
    pub name: Option<String>,
}

/// One PulseAudio source-output (a capture stream).
#[derive(Clone, Copy, Debug)]
pub struct SourceOutputInfo {
    /// Index of the source it reads from.
    pub source: u32,
    pub corked: bool,
}

/// What one query of the sound server returned.
#[derive(Debug)]
pub struct MicSnapshot {
    pub sources: Vec<SourceInfo>,
    pub outputs: Vec<SourceOutputInfo>,
}

pub open spec fn monitor_suffix() -> Seq<char> {
    seq!['.', 'm', 'o', 'n', 'i', 't', 'o', 'r']
}

/// The source captures desktop audio rather than a microphone.
pub open spec fn is_monitor(s: SourceInfo) -> bool {
    s.monitor_of_sink is Some || (s.name matches Some(n) && has_suffix(n@, monitor_suffix()))
}

/// Indices of the monitor sources, in listing order.
pub open spec fn monitors_of(s: Seq<SourceInfo>) -> Seq<u32>
    decreases s.len(),
{
    if s.len() == 0 {
        Seq::empty()
    } else if is_monitor(s.last()) {
        monitors_of(s.drop_last()).push(s.last().index)
    } else {
        monitors_of(s.drop_last())
    }
}

/// Some capture stream is running and reads from a source not in `monitors`.
pub open spec fn live_capture(outputs: Seq<SourceOutputInfo>, monitors: Seq<u32>) -> bool {
    exists|k: int|
        0 <= k < outputs.len() && !(#[trigger] outputs[k]).corked && !monitors.contains(
            outputs[k].source,
        )
}

/// Collects the indices of monitor sources (to exclude desktop-audio capture).
pub fn monitor_indices(sources: &Vec<SourceInfo>) -> (r: Vec<u32>)
    ensures
        r@ == monitors_of(sources@),
{
    let suffix = ".monitor";
    proof {
        reveal_strlit(".monitor");
        assert(suffix@ =~= monitor_suffix());
    }
    let mut r: Vec<u32> = Vec::new();
    let mut i: usize = 0;
    while i < sources.len()
        invariant
            i <= sources.len(),
            suffix@ == monitor_suffix(),
            r@ == monitors_of(sources@.take(i as int)),
        decreases sources.len() - i,
    {
        let item = &sources[i];
        let named_monitor = match &item.name {
            Some(n) => ends_with(n.as_str(), suffix),
            None => false,
        };
        let is_mon = item.monitor_of_sink.is_some() || named_monitor;
        assert(sources@.take(i + 1).drop_last() =~= sources@.take(i as int));
        if is_mon {
            r.push(item.index);
        }
        i = i + 1;
    }
    assert(sources@.take(sources.len() as int) =~= sources@);
    r
}

fn contains_u32(v: &Vec<u32>, x: u32) -> (r: bool)
    ensures
        r == v@.contains(x),
{
    let mut i: usize = 0;
    while i < v.len()
        invariant
            i <= v.len(),
            forall|j: int| 0 <= j < i ==> v@[j] != x,
        decreases v.len() - i,
    {
        if v[i] == x {
            assert(v@[i as int] == x);
            return true;
        }
        i = i + 1;
    }
    false
}

/// Any live (non-corked) capture from a non-monitor source.
pub fn capture_active(outputs: &Vec<SourceOutputInfo>, monitors: &Vec<u32>) -> (r: bool)
    ensures
        r == live_capture(outputs@, monitors@),
{
    let mut active = false;
    let mut i: usize = 0;
    while i < outputs.len()
        invariant
            i <= outputs.len(),
            active == live_capture(outputs@.take(i as int), monitors@),
        decreases outputs.len() - i,
    {
        let item = outputs[i];
        let from_monitor = contains_u32(monitors, item.source);
        if !item.corked && !from_monitor {
            active = true;
        }
        proof {
            let pre = outputs@.take(i as int);
            let post = outputs@.take(i + 1);
            assert forall|k: int| 0 <= k < pre.len() implies post[k] == pre[k] by {}
            if live_capture(pre, monitors@) {
                let k = choose|k: int|
                    0 <= k < pre.len() && !(#[trigger] pre[k]).corked && !monitors@.contains(
                        pre[k].source,
                    );
                assert(post[k] == pre[k]);
            }
            if !item.corked && !from_monitor {
                assert(post[i as int] == item);
            }
            if live_capture(post, monitors@) {
                let k = choose|k: int|
                    0 <= k < post.len() && !(#[trigger] post[k]).corked && !monitors@.contains(
                        post[k].source,
                    );
                if k < i {
                    assert(pre[k] == post[k]);
                }
            }
        }
        i = i + 1;
    }
    assert(outputs@.take(outputs.len() as int) =~= outputs@);
    active
}

/// The microphone counts as in use when the query succeeded and found a live
/// capture of a real input; a failed query counts as not in use.
pub fn mic_in_use(query: Result<MicSnapshot, String>) -> (r: bool)
    ensures
        r == match query {
            Ok(snap) => live_capture(snap.outputs@, monitors_of(snap.sources@)),
            Err(_) => false,
        },
{
    match query {
        Ok(snap) => {
            let monitors = monitor_indices(&snap.sources);
            capture_active(&snap.outputs, &monitors)
        },
        Err(_) => false,
    }
}

/// The microphone is in use exactly when some capture stream, wherever it
/// stands in the list, is running and reads from a source that is not a
/// monitor; adding streams never turns a "yes" into a "no", and a list where
/// every stream is corked or reads a monitor is a "no".
pub proof fn law_any_live_capture_counts(
    outputs: Seq<SourceOutputInfo>,
    monitors: Seq<u32>,
    more: Seq<SourceOutputInfo>,
)
    ensures
        live_capture(outputs, monitors) <==> exists|k: int|
            0 <= k < outputs.len() && !outputs[k].corked && !monitors.contains(
                #[trigger] outputs[k].source,
            ),
        live_capture(outputs, monitors) ==> live_capture(outputs + more, monitors),
        live_capture(outputs, monitors) ==> live_capture(more + outputs, monitors),
{
    if live_capture(outputs, monitors) {
        let k = choose|k: int|
            0 <= k < outputs.len() && !(#[trigger] outputs[k]).corked && !monitors.contains(
                outputs[k].source,
            );
        assert((outputs + more)[k] == outputs[k]);
        assert((more + outputs)[more.len() + k] == outputs[k]);
    }
    if exists|k: int|
        0 <= k < outputs.len() && !outputs[k].corked && !monitors.contains(
            #[trigger] outputs[k].source,
        ) {
        let k = choose|k: int|
            0 <= k < outputs.len() && !outputs[k].corked && !monitors.contains(
                #[trigger] outputs[k].source,
            );
        assert(!outputs[k].corked);
    }
}

/// A source counts as a monitor when it monitors a sink or its name ends in
/// `.monitor`; every such source's index is excluded, and no other.
pub proof fn law_monitor_sources(sources: Seq<SourceInfo>, x: u32)
    ensures
        monitors_of(sources).contains(x) <==> exists|i: int|
            0 <= i < sources.len() && (#[trigger] sources[i]).index == x && (
            sources[i].monitor_of_sink is Some || (sources[i].name matches Some(n) && has_suffix(
                n@,
                ".monitor"@,
            ))),
    decreases sources.len(),
{
    reveal_strlit(".monitor");
    assert(".monitor"@ =~= monitor_suffix());
    if sources.len() > 0 {
        let pre = sources.drop_last();
        law_monitor_sources(pre, x);
        let m = monitors_of(pre);
        if exists|i: int|
            0 <= i < sources.len() && (#[trigger] sources[i]).index == x && (
            sources[i].monitor_of_sink is Some || (sources[i].name matches Some(n) && has_suffix(
                n@,
                ".monitor"@,
            ))) {
            let i = choose|i: int|
                0 <= i < sources.len() && (#[trigger] sources[i]).index == x && (
                sources[i].monitor_of_sink is Some || (sources[i].name matches Some(n)
                    && has_suffix(n@, ".monitor"@)));
            if i < pre.len() {
                assert(pre[i] == sources[i]);
                assert(m.contains(x));
                if is_monitor(sources.last()) {
                    assert(monitors_of(sources) == m.push(sources.last().index));
                    assert(monitors_of(sources).contains(x)) by {
                        let p = choose|p: int| 0 <= p < m.len() && m[p] == x;
                        assert(m.push(sources.last().index)[p] == x);
                    }
                }
            } else {
                assert(is_monitor(sources.last()));
                assert(monitors_of(sources) == m.push(sources.last().index));
                assert(monitors_of(sources)[m.len() as int] == x);
            }
        }
        if monitors_of(sources).contains(x) {
            let p = choose|p: int| 0 <= p < monitors_of(sources).len() && monitors_of(sources)[p] == x;
            if is_monitor(sources.last()) {
                assert(monitors_of(sources) == m.push(sources.last().index));
                if p < m.len() {
                    assert(m[p] == x);
                    assert(m.contains(x));
                    let i = choose|i: int|
                        0 <= i < pre.len() && (#[trigger] pre[i]).index == x && (
                        pre[i].monitor_of_sink is Some || (pre[i].name matches Some(n)
                            && has_suffix(n@, ".monitor"@)));
                    assert(sources[i] == pre[i]);
                } else {
                    assert(sources[sources.len() - 1].index == x);
                }
            } else {
                assert(m.contains(x));
                let i = choose|i: int|
                    0 <= i < pre.len() && (#[trigger] pre[i]).index == x && (
                    pre[i].monitor_of_sink is Some || (pre[i].name matches Some(n)
                        && has_suffix(n@, ".monitor"@)));
                assert(sources[i] == pre[i]);
            }
        }
    }
}

} // verus!
