//! What the master answers on its socket, in both encodings.

use crate::master::{MasterState, RootRequest};
use crate::order::{pick, sorted_positions};
use crate::protocol::{
    check_protocol_version, error_envelope, HandshakeResult, RequestEnvelope, ResponseEnvelope,
    BAD_REQUEST, INTERNAL,
};
use crate::routing::{copy_roots, key_list, WorkerEntry};
use crate::text::{decimal, same};
use crate::types::{
    HealthReport, HealthResponse, MasterRequest, MasterResponse, SearchResponse, WorkerHealth,
    WorkerInfo,
};
use crate::verbs;
use vstd::prelude::*;

verus! {

broadcast use vstd::std_specs::hash::group_hash_axioms;

/// What a request in the binary encoding calls for.
pub enum MasterPlan {
    /// Find a worker for this root, then answer with `worker_socket_reply`.
    Resolve { base_path: String },
    /// Look at this root and ask the ring about it, then answer with `route_info`.
    RouteInfo { base_path: String },
    /// Answer at once.
    Reply(MasterResponse),
    /// Stop this worker, then acknowledge.
    Stop { index: u32 },
    /// Drop this root's routing; nothing is answered.
    Evict { slug: String },
    /// Ask every worker, then answer with the report.
    CollectHealth,
}

/// What a request in the JSON encoding calls for.
pub enum JsonPlan {
    /// Answer at once.
    Reply(ResponseEnvelope),
    /// Decode the parameters and find a worker.
    Handshake(RequestEnvelope),
    /// Ask every worker, then answer with the report.
    Health,
    /// Answer with the roots.
    ListRoots,
}

/// What is told of a worker.
pub open spec fn is_info(info: WorkerInfo, e: WorkerEntry) -> bool {
    &&& info.index == e.index
    &&& info.socket_path == e.socket_path
    &&& info.pid == e.pid
    &&& info.roots@ == e.roots@
}

/// One entry for every worker.
pub open spec fn informs(list: Seq<WorkerInfo>, workers: Map<u32, WorkerEntry>) -> bool {
    exists|keys: Seq<u32>| #[trigger]
        crate::master::enumerates(keys, workers) && list.len() == keys.len() && forall|i: int|
            0 <= i < keys.len() ==> is_info(#[trigger] list[i], workers[keys[i]])
}

/// The text about a worker that is not there.
pub open spec fn not_found_text(index: u32) -> Seq<char> {
    "worker-"@ + crate::text::decimal_text(index as nat) + " not found"@
}

/// An answer about worker `index`.
pub open spec fn tells_of(
    r: MasterResponse,
    index: u32,
    workers: Map<u32, WorkerEntry>,
) -> bool {
    if workers.contains_key(index) {
        r matches MasterResponse::WorkerInfo(info) && is_info(info, workers[index])
    } else {
        r matches MasterResponse::Error(m) && m@ == not_found_text(index)
    }
}

/// An answer about the worker of a root, which may have none.
pub open spec fn tells_route(
    r: MasterResponse,
    worker: Option<u32>,
    workers: Map<u32, WorkerEntry>,
) -> bool {
    match worker {
        Some(index) => tells_of(r, index, workers),
        None => r matches MasterResponse::Error(m) && m@ == "ring is empty"@,
    }
}

/// The base paths that the workers of `keys` serve, worker by worker.
pub open spec fn live_of(keys: Seq<u32>, workers: Map<u32, WorkerEntry>) -> Seq<String>
    decreases keys.len(),
{
    if keys.len() == 0 {
        Seq::empty()
    } else {
        live_of(keys.drop_last(), workers) + workers[keys.last()].roots@.map_values(
            |r: crate::routing::RootEntry| r.base_path,
        )
    }
}

fn info_of(e: &WorkerEntry) -> (r: WorkerInfo)
    ensures
        is_info(r, *e),
{
    WorkerInfo {
        index: e.index,
        socket_path: e.socket_path.clone(),
        roots: copy_roots(&e.roots),
        pid: e.pid,
    }
}

/// The answer to a handshake: the socket and index of the worker, or the refusal.
pub fn worker_socket_reply(found: Option<(String, u32)>) -> (r: MasterResponse)
    ensures
        match found {
            Some((path, worker_index)) => r == (MasterResponse::WorkerSocket { path, worker_index }),
            None => r matches MasterResponse::Error(m) && m@ == "no workers available"@,
        },
{
    match found {
        Some((path, worker_index)) => MasterResponse::WorkerSocket { path, worker_index },
        None => MasterResponse::Error(String::from_str("no workers available")),
    }
}

/// The same answer for a handshake in JSON.
pub fn handshake_reply(found: Option<(String, u32)>) -> (r: Result<HandshakeResult, ResponseEnvelope>)
    ensures
        match found {
            Some((worker_socket, worker_index)) => r == Ok::<HandshakeResult, ResponseEnvelope>(
                HandshakeResult { worker_socket, worker_index },
            ),
            None => r matches Err(e) && crate::protocol::is_error(
                e,
                INTERNAL@,
                "no workers available"@,
                None,
                None,
            ),
        },
{
    match found {
        Some((worker_socket, worker_index)) => Ok(HandshakeResult { worker_socket, worker_index }),
        None => Err(error_envelope(INTERNAL, String::from_str("no workers available"))),
    }
}

/// How a JSON request is handled: refused where it makes no sense, where the
/// client speaks another version, or where the verb is not the master's.
pub fn plan_json(decoded: Result<RequestEnvelope, String>) -> (r: JsonPlan)
    ensures
        match decoded {
            Err(e) => r matches JsonPlan::Reply(env) && crate::protocol::is_error(
                env,
                BAD_REQUEST@,
                "malformed request envelope: "@ + e@,
                None,
                None,
            ),
            Ok(req) => if req.protocol_version != crate::protocol::PROTOCOL_VERSION {
                r matches JsonPlan::Reply(env) && crate::protocol::is_error(
                    env,
                    crate::protocol::PROTOCOL_MISMATCH@,
                    crate::protocol::mismatch_text(req.protocol_version),
                    Some(crate::protocol::PROTOCOL_VERSION),
                    Some(req.protocol_version),
                )
            } else if req.verb@ == verbs::HANDSHAKE@ {
                r == JsonPlan::Handshake(req)
            } else if req.verb@ == verbs::HEALTH@ {
                r is Health
            } else if req.verb@ == verbs::LIST_ROOTS@ {
                r is ListRoots
            } else {
                r matches JsonPlan::Reply(env) && crate::protocol::is_error(
                    env,
                    BAD_REQUEST@,
                    "unsupported master verb: "@ + req.verb@,
                    None,
                    None,
                )
            },
        },
{
    match decoded {
        Err(e) => JsonPlan::Reply(
            error_envelope(
                BAD_REQUEST,
                String::from_str("malformed request envelope: ").concat(e.as_str()),
            ),
        ),
        Ok(req) => {
            if let Err(refusal) = check_protocol_version(req.protocol_version) {
                return JsonPlan::Reply(refusal);
            }
            if same(req.verb.as_str(), verbs::HANDSHAKE) {
                JsonPlan::Handshake(req)
            } else if same(req.verb.as_str(), verbs::HEALTH) {
                JsonPlan::Health
            } else if same(req.verb.as_str(), verbs::LIST_ROOTS) {
                JsonPlan::ListRoots
            } else {
                JsonPlan::Reply(
                    error_envelope(
                        BAD_REQUEST,
                        String::from_str("unsupported master verb: ").concat(req.verb.as_str()),
                    ),
                )
            }
        },
    }
}

/// What a worker's answer to a health request comes to. `debug` is the answer
/// as text, for answers that are none.
pub fn health_answer(resp: SearchResponse, debug: &str) -> (r: Result<HealthResponse, String>)
    ensures
        match resp {
            SearchResponse::Health(h) => r == Ok::<HealthResponse, String>(h),
            SearchResponse::Error(m) => r == Err::<HealthResponse, String>(m),
            _ => r matches Err(m) && m@ == "unexpected response: "@ + debug@,
        },
{
    match resp {
        SearchResponse::Health(h) => Ok(h),
        SearchResponse::Error(m) => Err(m),
        _ => Err(String::from_str("unexpected response: ").concat(debug)),
    }
}

/// One worker's part of the report. A worker that does not answer is listed
/// without roots.
pub fn worker_health(
    index: u32,
    pid: u32,
    socket_path: String,
    answer: Result<HealthResponse, String>,
) -> (r: WorkerHealth)
    ensures
        r.index == index,
        r.pid == pid,
        r.socket_path == socket_path,
        match answer {
            Ok(h) => r.roots == h.roots,
            Err(_) => r.roots@.len() == 0,
        },
{
    let roots = match answer {
        Ok(h) => h.roots,
        Err(_) => Vec::new(),
    };
    WorkerHealth { index, pid, socket_path, roots }
}

/// The indices of the workers of a list.
pub open spec fn index_keys(workers: Seq<WorkerHealth>) -> Seq<i64> {
    workers.map_values(|w: WorkerHealth| w.index as i64)
}

/// The report: every worker's part, in order of worker index.
pub fn collect_health(master_pid: u32, uptime_sec: u64, workers: Vec<WorkerHealth>) -> (r: HealthReport)
    ensures
        r.master_pid == master_pid,
        r.uptime_sec == uptime_sec,
        exists|p: Seq<usize>| #[trigger]
            crate::order::sorts(index_keys(workers@), p) && r.workers@ == crate::order::picked(
                workers@,
                p,
            ),
{
    let mut keys: Vec<i64> = Vec::new();
    let mut i: usize = 0;
    while i < workers.len()
        invariant
            i <= workers.len(),
            keys@.len() == i,
            forall|j: int| 0 <= j < i ==> keys@[j] == (#[trigger] workers@[j]).index,
        decreases workers.len() - i,
    {
        keys.push(workers[i].index as i64);
        i = i + 1;
    }
    assert(keys@ =~= index_keys(workers@));
    let p = sorted_positions(&keys);
    let ghost all = workers@;
    let sorted = pick(workers, &p);
    assert(crate::order::sorts(index_keys(all), p@));
    HealthReport { master_pid, uptime_sec, workers: sorted }
}

impl MasterState {
    /// What is told of worker `index`.
    pub fn worker_info(&self, index: u32) -> (r: Option<WorkerInfo>)
        ensures
            r is Some == self.routing.workers@.contains_key(index),
            r matches Some(info) ==> is_info(info, self.routing.workers@[index]),
    {
        match self.routing.workers.get(&index) {
            Some(e) => Some(info_of(e)),
            None => None,
        }
    }

    /// What is told of every worker, in no particular order.
    pub fn collect_worker_info(&self) -> (r: Vec<WorkerInfo>)
        ensures
            informs(r@, self.routing.workers@),
    {
        let keys = key_list(&self.routing.workers);
        let ghost w = self.routing.workers@;
        let mut r: Vec<WorkerInfo> = Vec::new();
        let mut k: usize = 0;
        while k < keys.len()
            invariant
                k <= keys.len(),
                w == self.routing.workers@,
                r@.len() == k,
                forall|x: u32| #[trigger] keys@.contains(x) == w.contains_key(x),
                forall|i: int| 0 <= i < k ==> is_info(#[trigger] r@[i], w[keys@[i]]),
            decreases keys.len() - k,
        {
            let idx: u32 = keys[k];
            assert(keys@.contains(idx));
            if let Some(e) = self.routing.workers.get(&idx) {
                r.push(info_of(e));
            }
            k = k + 1;
        }
        assert(crate::master::enumerates(keys@, w));
        r
    }

    /// The workers to ask for their health: index and process id.
    pub fn health_targets(&self) -> (r: Vec<(u32, u32)>)
        ensures
            exists|keys: Seq<u32>| #[trigger]
                crate::master::enumerates(keys, self.routing.workers@) && r@.len() == keys.len()
                    && forall|i: int|
                    0 <= i < keys.len() ==> (#[trigger] r@[i]) == (
                        self.routing.workers@[keys[i]].index,
                        self.routing.workers@[keys[i]].pid,
                    ),
    {
        let keys = key_list(&self.routing.workers);
        let ghost w = self.routing.workers@;
        let mut r: Vec<(u32, u32)> = Vec::new();
        let mut k: usize = 0;
        while k < keys.len()
            invariant
                k <= keys.len(),
                w == self.routing.workers@,
                r@.len() == k,
                forall|x: u32| #[trigger] keys@.contains(x) == w.contains_key(x),
                forall|i: int|
                    0 <= i < k ==> (#[trigger] r@[i]) == (w[keys@[i]].index, w[keys@[i]].pid),
            decreases keys.len() - k,
        {
            let idx: u32 = keys[k];
            assert(keys@.contains(idx));
            if let Some(e) = self.routing.workers.get(&idx) {
                r.push((e.index, e.pid));
            }
            k = k + 1;
        }
        assert(crate::master::enumerates(keys@, w));
        r
    }

    /// The base paths that workers serve, worker by worker.
    pub fn live_paths(&self) -> (r: Vec<String>)
        ensures
            exists|keys: Seq<u32>|
                crate::master::enumerates(keys, self.routing.workers@) && r@ == #[trigger] live_of(
                    keys,
                    self.routing.workers@,
                ),
    {
        let keys = key_list(&self.routing.workers);
        let ghost w = self.routing.workers@;
        let mut r: Vec<String> = Vec::new();
        let mut k: usize = 0;
        while k < keys.len()
            invariant
                k <= keys.len(),
                w == self.routing.workers@,
                forall|x: u32| #[trigger] keys@.contains(x) == w.contains_key(x),
                r@ == live_of(keys@.take(k as int), w),
            decreases keys.len() - k,
        {
            let idx: u32 = keys[k];
            assert(keys@.contains(idx));
            if let Some(e) = self.routing.workers.get(&idx) {
                let ghost start = r@;
                let ghost bases = e.roots@.map_values(|r: crate::routing::RootEntry| r.base_path);
                let mut j: usize = 0;
                while j < e.roots.len()
                    invariant
                        j <= e.roots.len(),
                        bases == e.roots@.map_values(
                            |r: crate::routing::RootEntry| r.base_path,
                        ),
                        r@ == start + bases.take(j as int),
                    decreases e.roots.len() - j,
                {
                    r.push(e.roots[j].base_path.clone());
                    assert(r@ =~= start + bases.take(j + 1));
                    j = j + 1;
                }
                assert(bases.take(j as int) =~= bases);
            }
            assert(keys@.take(k + 1).drop_last() =~= keys@.take(k as int));
            k = k + 1;
        }
        assert(keys@.take(k as int) =~= keys@);
        assert(crate::master::enumerates(keys@, w));
        r
    }

    /// An answer about worker `index`.
    pub fn worker_status_reply(&self, index: u32) -> (r: MasterResponse)
        ensures
            tells_of(r, index, self.routing.workers@),
    {
        match self.worker_info(index) {
            Some(info) => MasterResponse::WorkerInfo(info),
            None => MasterResponse::Error(
                String::from_str("worker-").concat(decimal(index as u64).as_str()).concat(
                    " not found",
                ),
            ),
        }
    }

    /// An answer about the worker of a root, which may have none.
    pub fn route_info_reply(&self, worker: Option<u32>) -> (r: MasterResponse)
        ensures
            tells_route(r, worker, self.routing.workers@),
    {
        match worker {
            Some(index) => self.worker_status_reply(index),
            None => MasterResponse::Error(String::from_str("ring is empty")),
        }
    }

    /// Which worker serves a root, or would. Changes nothing. `container_tree` is
    /// the working tree of the root that `resolve_worker` finds around it, and
    /// `assigned` what the ring says.
    pub fn route_info(
        &self,
        req: &RootRequest,
        container_tree: &Option<String>,
        assigned: Option<u32>,
    ) -> (r: MasterResponse)
        ensures
            exists|worker: Option<u32>| #[trigger]
                self.would_serve(req, *container_tree, assigned, worker) && tells_route(
                    r,
                    worker,
                    self.routing.workers@,
                ),
    {
        let worker = self.serving_worker(req, container_tree, assigned);
        self.route_info_reply(worker)
    }

    /// How a request in the binary encoding is handled.
    pub fn plan_request(&self, req: MasterRequest) -> (r: MasterPlan)
        ensures
            match req {
                MasterRequest::Handshake { base_path } => r == (MasterPlan::Resolve { base_path }),
                MasterRequest::RouteInfo { base_path } => r == (MasterPlan::RouteInfo {
                    base_path,
                }),
                MasterRequest::ListWorkers => r matches MasterPlan::Reply(
                    MasterResponse::WorkerList { workers },
                ) && informs(workers@, self.routing.workers@),
                MasterRequest::WorkerStatus { index } => r matches MasterPlan::Reply(resp)
                    && tells_of(resp, index, self.routing.workers@),
                MasterRequest::StopWorker { index } => r == (MasterPlan::Stop { index }),
                MasterRequest::EvictedRoot { slug } => r == (MasterPlan::Evict { slug }),
                MasterRequest::Health => r is CollectHealth,
            },
    {
        match req {
            MasterRequest::Handshake { base_path } => MasterPlan::Resolve { base_path },
            MasterRequest::RouteInfo { base_path } => MasterPlan::RouteInfo { base_path },
            MasterRequest::ListWorkers => MasterPlan::Reply(
                MasterResponse::WorkerList { workers: self.collect_worker_info() },
            ),
            MasterRequest::WorkerStatus { index } => MasterPlan::Reply(
                self.worker_status_reply(index),
            ),
            MasterRequest::StopWorker { index } => MasterPlan::Stop { index },
            MasterRequest::EvictedRoot { slug } => MasterPlan::Evict { slug },
            MasterRequest::Health => MasterPlan::CollectHealth,
        }
    }
}

/// The list of workers tells of every registered worker once, with its own index,
/// socket, process and roots.
pub proof fn law_every_worker_is_told_of_once(list: Seq<WorkerInfo>, workers: Map<u32, WorkerEntry>)
    requires
        informs(list, workers),
    ensures
        exists|keys: Seq<u32>|
            #![trigger keys.len()]
            {
                &&& keys.len() == list.len()
                &&& forall|a: int, b: int| 0 <= a < b < keys.len() ==> keys[a] != keys[b]
                &&& forall|w: u32| #[trigger] workers.contains_key(w) <==> keys.contains(w)
                &&& forall|i: int|
                    0 <= i < keys.len() ==> {
                        let e = workers[#[trigger] keys[i]];
                        &&& list[i].index == e.index
                        &&& list[i].socket_path@ == e.socket_path@
                        &&& list[i].pid == e.pid
                        &&& list[i].roots@ == e.roots@
                    }
            },
{
    let keys = choose|keys: Seq<u32>| #[trigger]
        crate::master::enumerates(keys, workers) && list.len() == keys.len() && forall|i: int|
            0 <= i < keys.len() ==> is_info(#[trigger] list[i], workers[keys[i]]);
    assert(keys.len() == list.len());
    assert forall|w: u32| #[trigger] workers.contains_key(w) <==> keys.contains(w) by {
        assert(keys.to_set().contains(w) == workers.dom().contains(w));
    }
    assert forall|i: int| 0 <= i < keys.len() implies {
        let e = workers[#[trigger] keys[i]];
        &&& list[i].index == e.index
        &&& list[i].socket_path@ == e.socket_path@
        &&& list[i].pid == e.pid
        &&& list[i].roots@ == e.roots@
    } by {
        assert(is_info(list[i], workers[keys[i]]));
    }
}

/// A worker that is registered is told of; one that is not is an error that names
/// it.
pub proof fn law_what_is_told_of_a_worker(
    r: MasterResponse,
    index: u32,
    workers: Map<u32, WorkerEntry>,
)
    requires
        tells_of(r, index, workers),
    ensures
        workers.contains_key(index) <==> r is WorkerInfo,
        !workers.contains_key(index) <==> r is Error,
        r matches MasterResponse::WorkerInfo(info) ==> {
            &&& info.index == workers[index].index
            &&& info.pid == workers[index].pid
            &&& info.socket_path@ == workers[index].socket_path@
            &&& info.roots@ == workers[index].roots@
        },
        r matches MasterResponse::Error(m) ==> m@ == "worker-"@ + crate::text::decimal_text(
            index as nat,
        ) + " not found"@,
{
}

proof fn lemma_live_of_has(keys: Seq<u32>, workers: Map<u32, WorkerEntry>, i: int, j: int)
    requires
        0 <= i < keys.len(),
        0 <= j < workers[keys[i]].roots@.len(),
    ensures
        live_of(keys, workers).contains(workers[keys[i]].roots@[j].base_path),
    decreases keys.len(),
{
    let front = keys.drop_last();
    let before = live_of(front, workers);
    let all = live_of(keys, workers);
    let p = workers[keys[i]].roots@[j].base_path;
    if i < front.len() {
        assert(front[i] == keys[i]);
        lemma_live_of_has(front, workers, i, j);
        let k = choose|k: int| 0 <= k < before.len() && before[k] == p;
        assert(all[k] == p);
    } else {
        assert(all[before.len() + j] == p);
    }
}

proof fn lemma_live_of_only(keys: Seq<u32>, workers: Map<u32, WorkerEntry>, k: int) -> (at: (
    int,
    int,
))
    requires
        0 <= k < live_of(keys, workers).len(),
    ensures
        0 <= at.0 < keys.len(),
        0 <= at.1 < workers[keys[at.0]].roots@.len(),
        workers[keys[at.0]].roots@[at.1].base_path == live_of(keys, workers)[k],
    decreases keys.len(),
{
    let front = keys.drop_last();
    let before = live_of(front, workers);
    if k < before.len() {
        let at = lemma_live_of_only(front, workers, k);
        assert(front[at.0] == keys[at.0]);
        at
    } else {
        (keys.len() - 1, k - before.len())
    }
}

/// The base path of every root that a worker serves is live.
pub proof fn law_every_served_root_is_live(
    live: Seq<String>,
    keys: Seq<u32>,
    workers: Map<u32, WorkerEntry>,
    w: u32,
    j: int,
)
    requires
        crate::master::enumerates(keys, workers),
        live == live_of(keys, workers),
        workers.contains_key(w),
        0 <= j < workers[w].roots@.len(),
    ensures
        live.contains(workers[w].roots@[j].base_path),
{
    assert(keys.to_set().contains(w));
    let i = choose|i: int| 0 <= i < keys.len() && keys[i] == w;
    lemma_live_of_has(keys, workers, i, j);
}

/// Every live path is the base path of a root that a worker serves.
pub proof fn law_every_live_path_is_served(
    live: Seq<String>,
    keys: Seq<u32>,
    workers: Map<u32, WorkerEntry>,
    k: int,
)
    requires
        crate::master::enumerates(keys, workers),
        live == live_of(keys, workers),
        0 <= k < live.len(),
    ensures
        exists|w: u32, j: int|
            #![trigger workers[w].roots@[j]]
            workers.contains_key(w) && 0 <= j < workers[w].roots@.len()
                && workers[w].roots@[j].base_path == live[k],
{
    let at = lemma_live_of_only(keys, workers, k);
    assert(keys.to_set().contains(keys[at.0]));
    assert(workers.contains_key(keys[at.0]));
    assert(workers[keys[at.0]].roots@[at.1].base_path == live[k]);
}

/// A health report holds every worker's part once, by ascending worker index.
pub proof fn law_a_report_holds_every_worker(
    parts: Seq<WorkerHealth>,
    p: Seq<usize>,
    report: Seq<WorkerHealth>,
)
    requires
        crate::order::sorts(index_keys(parts), p),
        report == crate::order::picked(parts, p),
    ensures
        report.len() == parts.len(),
        forall|a: int, b: int|
            0 <= a < b < report.len() ==> (#[trigger] report[a]).index <= (
            #[trigger] report[b]).index,
        forall|i: int| 0 <= i < parts.len() ==> report.contains(#[trigger] parts[i]),
        forall|k: int| 0 <= k < report.len() ==> parts.contains(#[trigger] report[k]),
        forall|a: int, b: int| 0 <= a < b < p.len() ==> p[a] != p[b],
{
    let keys = index_keys(parts);
    assert forall|a: int, b: int| 0 <= a < b < report.len() implies (#[trigger] report[a]).index
        <= (#[trigger] report[b]).index by {
        assert(crate::order::precedes(keys, p[a] as int, p[b] as int));
    }
    assert forall|i: int| 0 <= i < parts.len() implies report.contains(#[trigger] parts[i]) by {
        crate::order::law_sorting_keeps_every_position(keys, p, i);
        let k = choose|k: int| 0 <= k < p.len() && #[trigger] p[k] == i;
        assert(report[k] == parts[i]);
    }
    assert forall|k: int| 0 <= k < report.len() implies parts.contains(#[trigger] report[k]) by {
        assert(p[k] < parts.len());
        assert(parts[p[k] as int] == report[k]);
    }
}

} // verus!
