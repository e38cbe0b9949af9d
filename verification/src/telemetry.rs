//! Configuration of the observability layer, and the decision state it
//! needs: which request paths to skip, and per-request start times from
//! which span durations are computed. The surrounding middleware and the
//! log/trace exporters are external; they hold an explicit registry object
//! instead of process-wide mutable state.

use vstd::prelude::*;
use vstd::string::StringExecFns;

verus! {

/// Output format of the log subscriber.
#[derive(Clone, Copy, Debug, PartialEq, Eq, Structural, Hash)]
pub enum TracingFormat {
    Default,
    Json,
}

/// Settings of the log subscriber.
#[derive(Clone, Debug, PartialEq, Eq)]
pub struct TracingSettings {
    /// If disabled, tracing is not initialized at all.
    pub enabled: bool,
    pub format: TracingFormat,
}

impl Default for TracingSettings {
    fn default() -> (r: Self)
        ensures
            r.enabled == true,
            r.format == TracingFormat::Default,
    {
        TracingSettings { enabled: true, format: TracingFormat::Default }
    }
}

/// Settings of the trace exporter.
#[derive(Clone, Debug, PartialEq, Eq)]
pub struct OTLPSettings {
    pub enabled: bool,
    pub service_name: String,
    pub agent_endpoint: String,
}

impl Default for OTLPSettings {
    fn default() -> (r: Self)
        ensures
            r.enabled == true,
            r.service_name@ == "raas-blockscout-stat"@,
            r.agent_endpoint@ == "127.0.0.1:6831"@,
    {
        OTLPSettings {
            enabled: true,
            service_name: String::from_str("raas-blockscout-stat"),
            agent_endpoint: String::from_str("127.0.0.1:6831"),
        }
    }
}

/// What log initialization sets up for a given configuration.
#[derive(Clone, Copy, Debug, PartialEq, Eq, Structural, Hash)]
pub enum LogLayerPlan {
    /// Tracing is disabled: nothing is initialized.
    NotInitialized,
    /// A plain stdout layer, with span open/close events.
    PlainWithSpanEvents,
    /// A request-id layer plus a flattened JSON stdout layer.
    JsonWithRequestId,
}

/// The decision inside log initialization: whether to initialize at all,
/// and which layers to stack. The subscriber construction itself is
/// external plumbing around this choice.
pub fn log_layer_plan(settings: &TracingSettings) -> (r: LogLayerPlan)
    ensures
        !settings.enabled ==> r == LogLayerPlan::NotInitialized,
        settings.enabled && settings.format == TracingFormat::Default ==> r
            == LogLayerPlan::PlainWithSpanEvents,
        settings.enabled && settings.format == TracingFormat::Json ==> r
            == LogLayerPlan::JsonWithRequestId,
{
    if !settings.enabled {
        LogLayerPlan::NotInitialized
    } else {
        match settings.format {
            TracingFormat::Default => LogLayerPlan::PlainWithSpanEvents,
            TracingFormat::Json => LogLayerPlan::JsonWithRequestId,
        }
    }
}

/// The resource attributes the trace exporter reports: the service name
/// always, and the pod name and namespace only when the environment
/// provides them.
pub fn resource_attributes(
    service_name: String,
    pod_name: Option<String>,
    pod_namespace: Option<String>,
) -> (r: Vec<(String, String)>)
    ensures
        r@.len() == 1 + (if pod_name is Some {
            1int
        } else {
            0int
        }) + (if pod_namespace is Some {
            1int
        } else {
            0int
        }),
        r@[0].0@ == "service.name"@ && r@[0].1 == service_name,
        pod_name is Some ==> r@[1].0@ == "k8s.pod.name"@ && r@[1].1 == pod_name.unwrap(),
        (pod_name is None && pod_namespace is Some) ==> r@[1].0@ == "k8s.namespace.name"@
            && r@[1].1 == pod_namespace.unwrap(),
        (pod_name is Some && pod_namespace is Some) ==> r@[2].0@ == "k8s.namespace.name"@
            && r@[2].1 == pod_namespace.unwrap(),
{
    let mut attrs: Vec<(String, String)> = Vec::new();
    attrs.push((String::from_str("service.name"), service_name));
    match pod_name {
        Some(name) => {
            attrs.push((String::from_str("k8s.pod.name"), name));
        },
        None => {},
    }
    match pod_namespace {
        Some(ns) => {
            attrs.push((String::from_str("k8s.namespace.name"), ns));
        },
        None => {},
    }
    attrs
}

/// Builder state for request root spans: the paths that get no span, and
/// the start instant of each live request, keyed by span id.
pub struct CompactRootSpanBuilder {
    skip_http_trace_paths: Vec<String>,
    timings: Vec<(u64, u64)>,
}

impl CompactRootSpanBuilder {
    /// The set of paths that get no span.
    pub closed spec fn spec_skip_paths(self) -> Seq<Seq<char>> {
        self.skip_http_trace_paths@.map_values(|s: String| s@)
    }

    /// The live requests: span id and start instant in microseconds.
    pub closed spec fn spec_timings(self) -> Seq<(u64, u64)> {
        self.timings@
    }

    pub fn new() -> (r: Self)
        ensures
            r.spec_skip_paths().len() == 0,
            r.spec_timings().len() == 0,
    {
        CompactRootSpanBuilder { skip_http_trace_paths: Vec::new(), timings: Vec::new() }
    }

    /// Enable creating a span for all paths.
    pub fn all_paths(&mut self)
        ensures
            final(self).spec_skip_paths().len() == 0,
            final(self).spec_timings() == old(self).spec_timings(),
    {
        self.skip_http_trace_paths = Vec::new();
        proof {
            assert(self.spec_skip_paths() =~= Seq::<Seq<char>>::empty());
        }
    }

    /// Skip creating a span for the given paths.
    pub fn skip_paths(&mut self, skip_http_trace_paths: Vec<String>)
        ensures
            final(self).spec_skip_paths() == skip_http_trace_paths@.map_values(|s: String| s@),
            final(self).spec_timings() == old(self).spec_timings(),
    {
        self.skip_http_trace_paths = skip_http_trace_paths;
    }

    /// Whether requests for this path get no span.
    pub fn should_skip(&self, path: &String) -> (r: bool)
        ensures
            r <==> self.spec_skip_paths().contains(path@),
    {
        let mut i: usize = 0;
        while i < self.skip_http_trace_paths.len()
            invariant
                0 <= i <= self.skip_http_trace_paths@.len(),
                forall|j: int| 0 <= j < i ==> self.spec_skip_paths()[j] != path@,
            decreases self.skip_http_trace_paths@.len() - i,
        {
            if self.skip_http_trace_paths[i] == *path {
                proof {
                    assert(self.spec_skip_paths()[i as int] == path@);
                }
                return true;
            }
            i = i + 1;
        }
        proof {
            if self.spec_skip_paths().contains(path@) {
                let j = choose|j: int|
                    0 <= j < self.spec_skip_paths().len() && self.spec_skip_paths()[j] == path@;
                assert(self.spec_skip_paths()[j] == path@);
            }
        }
        false
    }

    /// Records the start instant of a request's span.
    pub fn on_request_start(&mut self, span_id: u64, now_micros: u64)
        ensures
            final(self).spec_timings() == old(self).spec_timings().push((span_id, now_micros)),
            final(self).spec_skip_paths() == old(self).spec_skip_paths(),
    {
        self.timings.push((span_id, now_micros));
    }

    /// Removes a request's start instant and returns the span's duration in
    /// microseconds (zero for a clock that moved backward), or `None` when
    /// the span was never recorded.
    pub fn on_request_end(&mut self, span_id: u64, now_micros: u64) -> (r: Option<u64>)
        ensures
            final(self).spec_skip_paths() == old(self).spec_skip_paths(),
            r is None ==> *final(self) == *old(self) && (forall|i: int|
                0 <= i < old(self).spec_timings().len() ==> (#[trigger] old(
                    self,
                ).spec_timings()[i]).0 != span_id),
            r is Some ==> exists|i: int|
                0 <= i < old(self).spec_timings().len() && (#[trigger] old(
                    self,
                ).spec_timings()[i]).0 == span_id && r.unwrap() == (
                if now_micros >= old(self).spec_timings()[i].1 {
                    now_micros - old(self).spec_timings()[i].1
                } else {
                    0
                }) && final(self).spec_timings() == old(self).spec_timings().remove(i),
    {
        let mut i: usize = 0;
        while i < self.timings.len()
            invariant
                0 <= i <= self.timings@.len(),
                *self == *old(self),
                forall|j: int| 0 <= j < i ==> (#[trigger] self.spec_timings()[j]).0 != span_id,
            decreases self.timings@.len() - i,
        {
            if self.timings[i].0 == span_id {
                let entry = self.timings.remove(i);
                let d: u64 = if now_micros >= entry.1 {
                    now_micros - entry.1
                } else {
                    0
                };
                proof {
                    let gi = i as int;
                    assert((old(self).spec_timings()[gi]).0 == span_id);
                    assert(self.spec_timings() == old(self).spec_timings().remove(gi));
                    assert(d == (if now_micros >= old(self).spec_timings()[gi].1 {
                        now_micros - old(self).spec_timings()[gi].1
                    } else {
                        0int
                    }));
                }
                return Some(d);
            }
            i = i + 1;
        }
        None
    }
}

} // verus!
