//! Accounting of the resources that a guest hands out to its requesters:
//! memory, CPU cores, storage, network bandwidth and GPU memory.
//!
//! The interface keeps, for every kind of resource, how much is in use and the
//! limit that it may not exceed, and a record of every allocation under its
//! identifier. A request is granted only when the amount in use plus the
//! amount asked for stays within the limit; releasing an allocation gives its
//! amount back.

use vstd::prelude::*;

use crate::error::{HalError, HalResult};
use crate::text::{
    chars_of, decimal, lines_of, parse_u64, parse_u64_spec, push_decimal, push_str, split_lines,
    split_whitespace, starts_with, string_from_chars, tokens_of, views_of,
};
use std::time::{Duration, SystemTime};

verus! {

/// The kinds of resource that can be requested.
#[derive(Debug, Clone, Copy, PartialEq, Eq, Structural)]
pub enum ResourceType {
    /// Memory, in MB.
    Memory,
    /// CPU cores.
    CpuCores,
    /// Storage, in MB.
    Storage,
    /// Network bandwidth, in Mbps.
    NetworkBandwidth,
    /// GPU memory, in MB.
    GpuMemory,
}

/// How urgent a request is.
#[derive(Debug, Clone, Copy, PartialEq, Eq, Structural)]
pub enum RequestPriority {
    Low,
    Normal,
    High,
    Critical,
}

/// The most of each resource that may be in use at once.
#[derive(Debug, Clone, Copy, PartialEq, Eq, Structural)]
pub struct ResourceLimits {
    pub max_memory_mb: u64,
    pub max_cpu_cores: u32,
    pub max_storage_mb: u64,
    pub max_network_bandwidth_mbps: u64,
    pub max_gpu_memory_mb: u64,
}

/// How much of each resource is in use.
#[derive(Debug, Clone, Copy, PartialEq, Eq, Structural)]
pub struct ResourceUsage {
    pub memory_mb: u64,
    pub cpu_cores: u32,
    pub storage_mb: u64,
    pub network_bandwidth_mbps: u64,
    pub gpu_memory_mb: u64,
}

/// A request for an amount of one kind of resource.
#[derive(Debug)]
pub struct ResourceRequest {
    pub resource_type: ResourceType,
    pub amount: u64,
    pub requester: String,
    pub priority: RequestPriority,
    pub timeout_seconds: Option<u64>,
}

/// The answer to a granted request.
#[derive(Debug)]
pub struct AllocationResult {
    pub allocation_id: String,
    pub granted_amount: u64,
    pub expires_at: Option<u64>,
}

/// The record of one allocation.
#[derive(Debug)]
pub struct ResourceAllocation {
    pub allocation_id: String,
    pub resource_type: ResourceType,
    pub amount: u64,
    pub allocated_at: u64,
    pub requester: String,
    /// When the allocation expires, in seconds after the Unix epoch (set
    /// from the timeout of its request).
    pub expires_at: Option<u64>,
}

/// The abstract value of a `ResourceRequest`.
pub struct RequestView {
    pub resource_type: ResourceType,
    pub amount: u64,
    pub requester: Seq<char>,
    pub priority: RequestPriority,
    pub timeout_seconds: Option<u64>,
}

/// The abstract value of an `AllocationResult`.
pub struct GrantView {
    pub allocation_id: Seq<char>,
    pub granted_amount: u64,
    pub expires_at: Option<u64>,
}

/// The abstract value of a `ResourceAllocation`.
pub struct AllocationView {
    pub allocation_id: Seq<char>,
    pub resource_type: ResourceType,
    pub amount: u64,
    pub allocated_at: u64,
    pub requester: Seq<char>,
    pub expires_at: Option<u64>,
}

impl View for ResourceRequest {
    type V = RequestView;

    open spec fn view(&self) -> RequestView {
        RequestView {
            resource_type: self.resource_type,
            amount: self.amount,
            requester: self.requester@,
            priority: self.priority,
            timeout_seconds: self.timeout_seconds,
        }
    }
}

impl View for AllocationResult {
    type V = GrantView;

    open spec fn view(&self) -> GrantView {
        GrantView {
            allocation_id: self.allocation_id@,
            granted_amount: self.granted_amount,
            expires_at: self.expires_at,
        }
    }
}

impl View for ResourceAllocation {
    type V = AllocationView;

    open spec fn view(&self) -> AllocationView {
        AllocationView {
            allocation_id: self.allocation_id@,
            resource_type: self.resource_type,
            amount: self.amount,
            allocated_at: self.allocated_at,
            requester: self.requester@,
            expires_at: self.expires_at,
        }
    }
}

impl Clone for ResourceRequest {
    fn clone(&self) -> (r: Self)
        ensures
            r@ == self@,
    {
        ResourceRequest {
            resource_type: self.resource_type,
            amount: self.amount,
            requester: self.requester.clone(),
            priority: self.priority,
            timeout_seconds: self.timeout_seconds,
        }
    }
}

impl Clone for AllocationResult {
    fn clone(&self) -> (r: Self)
        ensures
            r@ == self@,
    {
        AllocationResult {
            allocation_id: self.allocation_id.clone(),
            granted_amount: self.granted_amount,
            expires_at: self.expires_at,
        }
    }
}

impl Clone for ResourceAllocation {
    fn clone(&self) -> (r: Self)
        ensures
            r@ == self@,
    {
        ResourceAllocation {
            allocation_id: self.allocation_id.clone(),
            resource_type: self.resource_type,
            amount: self.amount,
            allocated_at: self.allocated_at,
            requester: self.requester.clone(),
            expires_at: self.expires_at,
        }
    }
}

/// The abstract state of a `ResourceInterface`.
pub struct ResourceState {
    /// The live allocations, oldest first.
    pub allocations: Seq<AllocationView>,
    pub limits: ResourceLimits,
    pub usage: ResourceUsage,
}

/// The views of a sequence of allocation records.
pub open spec fn allocation_views(v: Seq<ResourceAllocation>) -> Seq<AllocationView> {
    v.map_values(|a: ResourceAllocation| a@)
}

/// The name of a kind of resource, as `{:?}` prints it.
pub open spec fn kind_name(kind: ResourceType) -> Seq<char> {
    match kind {
        ResourceType::Memory => "Memory"@,
        ResourceType::CpuCores => "CpuCores"@,
        ResourceType::Storage => "Storage"@,
        ResourceType::NetworkBandwidth => "NetworkBandwidth"@,
        ResourceType::GpuMemory => "GpuMemory"@,
    }
}

/// How many units of its counter an amount of `kind` takes: CPU cores are
/// counted in 32 bits, so an amount of them is cut to its low 32 bits.
pub open spec fn units(kind: ResourceType, amount: u64) -> int {
    match kind {
        ResourceType::CpuCores => (amount as u32) as int,
        _ => amount as int,
    }
}

/// How much of `kind` is in use.
pub open spec fn in_use(u: ResourceUsage, kind: ResourceType) -> int {
    match kind {
        ResourceType::Memory => u.memory_mb as int,
        ResourceType::CpuCores => u.cpu_cores as int,
        ResourceType::Storage => u.storage_mb as int,
        ResourceType::NetworkBandwidth => u.network_bandwidth_mbps as int,
        ResourceType::GpuMemory => u.gpu_memory_mb as int,
    }
}

/// The limit on `kind`.
pub open spec fn limit_of(l: ResourceLimits, kind: ResourceType) -> int {
    match kind {
        ResourceType::Memory => l.max_memory_mb as int,
        ResourceType::CpuCores => l.max_cpu_cores as int,
        ResourceType::Storage => l.max_storage_mb as int,
        ResourceType::NetworkBandwidth => l.max_network_bandwidth_mbps as int,
        ResourceType::GpuMemory => l.max_gpu_memory_mb as int,
    }
}

/// The largest value the counter of `kind` can hold.
pub open spec fn counter_max(kind: ResourceType) -> int {
    match kind {
        ResourceType::CpuCores => u32::MAX as int,
        _ => u64::MAX as int,
    }
}

/// `u` with the counter of `kind` set to `v`.
pub open spec fn with_in_use(u: ResourceUsage, kind: ResourceType, v: int) -> ResourceUsage {
    match kind {
        ResourceType::Memory => ResourceUsage { memory_mb: v as u64, ..u },
        ResourceType::CpuCores => ResourceUsage { cpu_cores: v as u32, ..u },
        ResourceType::Storage => ResourceUsage { storage_mb: v as u64, ..u },
        ResourceType::NetworkBandwidth => ResourceUsage { network_bandwidth_mbps: v as u64, ..u },
        ResourceType::GpuMemory => ResourceUsage { gpu_memory_mb: v as u64, ..u },
    }
}

/// Whether `amount` more of `kind` stays within its limit.
pub open spec fn fits(s: ResourceState, kind: ResourceType, amount: u64) -> bool {
    in_use(s.usage, kind) + units(kind, amount) <= limit_of(s.limits, kind)
}

/// Whether adding `amount` of `kind` to what is in use can be computed in
/// the width of its counter (beyond it the arithmetic overflows).
pub open spec fn grant_in_range(s: ResourceState, kind: ResourceType, amount: u64) -> bool {
    in_use(s.usage, kind) + units(kind, amount) <= counter_max(kind)
}

/// The usage after `amount` of `kind` is granted.
pub open spec fn granted_usage(u: ResourceUsage, kind: ResourceType, amount: u64) -> ResourceUsage {
    with_in_use(u, kind, in_use(u, kind) + units(kind, amount))
}

/// The usage after `amount` of `kind` is given back; a counter stops at zero.
pub open spec fn released_usage(u: ResourceUsage, kind: ResourceType, amount: u64) -> ResourceUsage {
    let left = in_use(u, kind) - units(kind, amount);
    with_in_use(u, kind, if left < 0 { 0 } else { left })
}

/// Whether every counter stays within its limit.
pub open spec fn usage_within_limits(u: ResourceUsage, l: ResourceLimits) -> bool {
    &&& u.memory_mb <= l.max_memory_mb
    &&& u.cpu_cores <= l.max_cpu_cores
    &&& u.storage_mb <= l.max_storage_mb
    &&& u.network_bandwidth_mbps <= l.max_network_bandwidth_mbps
    &&& u.gpu_memory_mb <= l.max_gpu_memory_mb
}

/// Whether no two allocations share an identifier.
pub open spec fn ids_distinct(a: Seq<AllocationView>) -> bool {
    forall|i: int, j: int|
        0 <= i < a.len() && 0 <= j < a.len() && i != j ==> #[trigger] a[i].allocation_id
            != #[trigger] a[j].allocation_id
}

/// Whether an allocation with identifier `id` exists.
pub open spec fn has_id(a: Seq<AllocationView>, id: Seq<char>) -> bool {
    exists|i: int| 0 <= i < a.len() && #[trigger] a[i].allocation_id == id
}

/// The position of the allocation with identifier `id` (meaningful when
/// `has_id(a, id)`).
pub open spec fn position_of(a: Seq<AllocationView>, id: Seq<char>) -> int {
    choose|i: int| 0 <= i < a.len() && #[trigger] a[i].allocation_id == id
}

/// The well-formedness of a state: identifiers are distinct and no counter
/// exceeds its limit.
pub open spec fn state_wf(s: ResourceState) -> bool {
    &&& ids_distinct(s.allocations)
    &&& usage_within_limits(s.usage, s.limits)
}

/// The identifier given to a request granted at `now_millis` milliseconds
/// after the Unix epoch: kind, requester, amount and time, joined by `_`.
pub open spec fn allocation_id_for(req: RequestView, now_millis: nat) -> Seq<char> {
    kind_name(req.resource_type) + seq!['_'] + req.requester + seq!['_'] + decimal(
        req.amount as nat,
    ) + seq!['_'] + decimal(now_millis)
}

/// The record made for a request granted at `now_millis`.
pub open spec fn record_for(req: RequestView, now_millis: nat) -> AllocationView {
    AllocationView {
        allocation_id: allocation_id_for(req, now_millis),
        resource_type: req.resource_type,
        amount: req.amount,
        allocated_at: (now_millis / 1000) as u64,
        requester: req.requester,
        expires_at: expiry_for(req, now_millis),
    }
}

/// The expiry of a request granted at `now_millis`: its timeout added to the
/// grant time in seconds, or none without a timeout.
pub open spec fn expiry_for(req: RequestView, now_millis: nat) -> Option<u64> {
    match req.timeout_seconds {
        Some(t) => Some((now_millis / 1000 + t) as u64),
        None => None,
    }
}

/// Whether the expiry time of a request granted at `now_millis` fits in 64
/// bits.
pub open spec fn expiry_in_range(req: RequestView, now_millis: nat) -> bool {
    match req.timeout_seconds {
        Some(t) => now_millis / 1000 + t <= u64::MAX,
        None => true,
    }
}

/// The answer to a request granted at `now_millis`.
pub open spec fn grant_for(req: RequestView, now_millis: nat) -> GrantView {
    GrantView {
        allocation_id: allocation_id_for(req, now_millis),
        granted_amount: req.amount,
        expires_at: expiry_for(req, now_millis),
    }
}

/// `a` with `rec` stored under its identifier: a record with the same
/// identifier is replaced in place, otherwise `rec` is added at the end.
pub open spec fn upsert(a: Seq<AllocationView>, rec: AllocationView) -> Seq<AllocationView> {
    if has_id(a, rec.allocation_id) {
        a.update(position_of(a, rec.allocation_id), rec)
    } else {
        a.push(rec)
    }
}

/// The state after a request is granted at `now_millis`.
pub open spec fn after_grant(s: ResourceState, req: RequestView, now_millis: nat) -> ResourceState {
    ResourceState {
        allocations: upsert(s.allocations, record_for(req, now_millis)),
        limits: s.limits,
        usage: granted_usage(s.usage, req.resource_type, req.amount),
    }
}

/// The state after the allocation at position `i` is released.
pub open spec fn after_release(s: ResourceState, i: int) -> ResourceState {
    ResourceState {
        allocations: s.allocations.remove(i),
        limits: s.limits,
        usage: released_usage(s.usage, s.allocations[i].resource_type, s.allocations[i].amount),
    }
}

/// Whether an allocation was made for `requester`.
pub open spec fn requested_by(requester: Seq<char>) -> spec_fn(AllocationView) -> bool {
    |a: AllocationView| a.requester == requester
}

/// A request of normal priority and without timeout.
pub open spec fn plain_request(kind: ResourceType, amount: u64, requester: Seq<char>) -> RequestView {
    RequestView {
        resource_type: kind,
        amount,
        requester,
        priority: RequestPriority::Normal,
        timeout_seconds: None,
    }
}

/// The message of a refusal for want of `kind`.
pub open spec fn insufficient_message(kind: ResourceType) -> Seq<char> {
    "Insufficient "@ + kind_name(kind) + " resources available"@
}

/// The message for an identifier that names no allocation.
pub open spec fn not_found_message(id: Seq<char>) -> Seq<char> {
    "Allocation '"@ + id + "' not found"@
}

/// The message for a timeout whose expiry time does not fit in 64 bits.
pub open spec fn expiry_overflow_message() -> Seq<char> {
    "Requested timeout is too large"@
}

/// What a request granted or refused at `now_millis` gives: refused for want
/// of the resource (nothing changes), refused for an expiry time beyond 64
/// bits (nothing changes), or granted.
pub open spec fn allocation_outcome_at(
    pre: ResourceState,
    req: RequestView,
    now_millis: nat,
    post: ResourceState,
    r: HalResult<AllocationResult>,
) -> bool {
    if !fits(pre, req.resource_type, req.amount) {
        &&& r matches Err(HalError::ResourceError(m)) && m@ == insufficient_message(
            req.resource_type,
        )
        &&& post == pre
    } else if !expiry_in_range(req, now_millis) {
        &&& r matches Err(HalError::InvalidParameter(m)) && m@ == expiry_overflow_message()
        &&& post == pre
    } else {
        &&& r matches Ok(g) && g@ == grant_for(req, now_millis)
        &&& post == after_grant(pre, req, now_millis)
    }
}

/// The outcome of a request served at some time that a clock gave: whatever
/// that time, the outcome is the one for it.
pub open spec fn allocation_outcome(
    pre: ResourceState,
    req: RequestView,
    post: ResourceState,
    r: HalResult<AllocationResult>,
) -> bool {
    exists|now_millis: nat|
        now_millis / 1000 <= u64::MAX && #[trigger] allocation_outcome_at(
            pre,
            req,
            now_millis,
            post,
            r,
        )
}

#[verifier::external_type_specification]
#[verifier::external_body]
pub struct ExSystemTime(SystemTime);

/// `std::time::SystemTime::now`: the current reading of the system clock.
/// Nothing is stated of it: it depends on when the call is made.
#[verifier::external_body]
fn system_time_now() -> SystemTime {
    SystemTime::now()
}

/// `SystemTime::duration_since(UNIX_EPOCH)`: how long after the Unix epoch
/// `t` lies, or `None` (std's error) for a time before the epoch. Nothing is
/// stated of the duration: `SystemTime` is opaque here.
#[verifier::external_body]
fn since_unix_epoch(t: &SystemTime) -> Option<Duration> {
    t.duration_since(std::time::UNIX_EPOCH).ok()
}

/// `Duration::as_millis`: the whole milliseconds of `d`. Its whole seconds
/// are a `u64` (`Duration::as_secs`), so the count divided by 1000 fits in
/// 64 bits; `Duration` is opaque here, so no more is stated.
#[verifier::external_body]
fn duration_as_millis(d: &Duration) -> (m: u128)
    ensures
        m / 1000 <= u64::MAX,
{
    d.as_millis()
}

/// Whether an allocation has expired by `now_secs`: it has an expiry, and
/// the expiry is not after `now_secs`.
pub open spec fn is_expired(a: AllocationView, now_secs: u64) -> bool {
    a.expires_at matches Some(e) && e <= now_secs
}

/// The allocations that have expired by `now_secs`.
pub open spec fn expired_by(now_secs: u64) -> spec_fn(AllocationView) -> bool {
    |a: AllocationView| is_expired(a, now_secs)
}

/// The allocations that are still live at `now_secs`.
pub open spec fn live_at(now_secs: u64) -> spec_fn(AllocationView) -> bool {
    |a: AllocationView| !is_expired(a, now_secs)
}

/// The usage after the expired ones among `a` are given back one by one,
/// oldest first.
pub open spec fn usage_after_expiry(u: ResourceUsage, a: Seq<AllocationView>, now_secs: u64) -> ResourceUsage
    decreases a.len(),
{
    if a.len() == 0 {
        u
    } else {
        let v = usage_after_expiry(u, a.drop_last(), now_secs);
        if is_expired(a.last(), now_secs) {
            released_usage(v, a.last().resource_type, a.last().amount)
        } else {
            v
        }
    }
}

/// The state after the allocations expired by `now_secs` are released: they
/// leave the records, and their amounts are given back.
pub open spec fn after_cleanup(s: ResourceState, now_secs: u64) -> ResourceState {
    ResourceState {
        allocations: s.allocations.filter(live_at(now_secs)),
        limits: s.limits,
        usage: usage_after_expiry(s.usage, s.allocations, now_secs),
    }
}

/// The identifiers of the allocations among `a` that have expired by
/// `now_secs`, oldest first.
pub open spec fn expired_ids(a: Seq<AllocationView>, now_secs: u64) -> Seq<Seq<char>> {
    a.filter(expired_by(now_secs)).map_values(|x: AllocationView| x.allocation_id)
}

/// The views of a sequence of strings.
pub open spec fn id_views(v: Seq<String>) -> Seq<Seq<char>> {
    v.map_values(|x: String| x@)
}

/// `u` with `amount` of `kind` given back (see `released_usage`).
fn give_back(u: ResourceUsage, kind: ResourceType, amount: u64) -> (r: ResourceUsage)
    ensures
        r == released_usage(u, kind, amount),
{
    let mut v = u;
    match kind {
        ResourceType::Memory => {
            v.memory_mb = v.memory_mb.saturating_sub(amount);
        },
        ResourceType::CpuCores => {
            v.cpu_cores = v.cpu_cores.saturating_sub(amount as u32);
        },
        ResourceType::Storage => {
            v.storage_mb = v.storage_mb.saturating_sub(amount);
        },
        ResourceType::NetworkBandwidth => {
            v.network_bandwidth_mbps = v.network_bandwidth_mbps.saturating_sub(amount);
        },
        ResourceType::GpuMemory => {
            v.gpu_memory_mb = v.gpu_memory_mb.saturating_sub(amount);
        },
    }
    v
}

proof fn lemma_released_within_limits(
    u: ResourceUsage,
    kind: ResourceType,
    amount: u64,
    l: ResourceLimits,
)
    requires
        usage_within_limits(u, l),
    ensures
        usage_within_limits(released_usage(u, kind, amount), l),
{
}

proof fn lemma_filter_ids_distinct(a: Seq<AllocationView>, p: spec_fn(AllocationView) -> bool)
    requires
        ids_distinct(a),
    ensures
        ids_distinct(a.filter(p)),
    decreases a.len(),
{
    reveal(Seq::filter);
    if a.len() > 0 {
        let b = a.drop_last();
        assert(ids_distinct(b)) by {
            assert forall|i: int, j: int|
                0 <= i < b.len() && 0 <= j < b.len() && i != j implies #[trigger] b[i].allocation_id
                != #[trigger] b[j].allocation_id by {
                assert(b[i] == a[i] && b[j] == a[j]);
            }
        }
        lemma_filter_ids_distinct(b, p);
        if p(a.last()) {
            let f = b.filter(p);
            let g = f.push(a.last());
            assert(a.filter(p) == g);
            assert forall|i: int, j: int|
                0 <= i < g.len() && 0 <= j < g.len() && i != j implies #[trigger] g[i].allocation_id
                != #[trigger] g[j].allocation_id by {
                if i == f.len() || j == f.len() {
                    let k = if i == f.len() { j } else { i };
                    assert(f.contains(f[k]));
                    b.lemma_filter_contains_rev(p, f[k]);
                    let m = choose|m: int| 0 <= m < b.len() && b[m] == f[k];
                    assert(a[m] == f[k]);
                    assert(a[a.len() - 1].allocation_id != a[m].allocation_id);
                } else {
                    assert(g[i] == f[i] && g[j] == f[j]);
                }
            }
        }
    }
}

/// Milliseconds since the Unix epoch by the system clock; a clock set before
/// the epoch reads as 0.
fn unix_time_millis() -> (m: u128)
    ensures
        m / 1000 <= u64::MAX,
{
    let now = system_time_now();
    match since_unix_epoch(&now) {
        Some(d) => duration_as_millis(&d),
        None => 0,
    }
}

/// The allocation bookkeeping of a guest.
#[derive(Debug)]
pub struct ResourceInterface {
    allocations: Vec<ResourceAllocation>,
    total_limits: ResourceLimits,
    current_usage: ResourceUsage,
}

impl View for ResourceInterface {
    type V = ResourceState;

    closed spec fn view(&self) -> ResourceState {
        ResourceState {
            allocations: allocation_views(self.allocations@),
            limits: self.total_limits,
            usage: self.current_usage,
        }
    }
}

/// The name of a kind of resource, as `{:?}` prints it.
pub fn resource_type_name(kind: ResourceType) -> (s: &'static str)
    ensures
        s@ == kind_name(kind),
{
    match kind {
        ResourceType::Memory => "Memory",
        ResourceType::CpuCores => "CpuCores",
        ResourceType::Storage => "Storage",
        ResourceType::NetworkBandwidth => "NetworkBandwidth",
        ResourceType::GpuMemory => "GpuMemory",
    }
}

impl ResourceInterface {
    /// Whether the interface is well formed (see `state_wf`).
    pub open spec fn wf(&self) -> bool {
        state_wf(self@)
    }

    /// An interface with the given limits, nothing in use and no allocation.
    pub fn with_limits(limits: ResourceLimits) -> (r: Self)
        ensures
            r.wf(),
            r@.allocations == Seq::<AllocationView>::empty(),
            r@.limits == limits,
            r@.usage == (ResourceUsage {
                memory_mb: 0,
                cpu_cores: 0,
                storage_mb: 0,
                network_bandwidth_mbps: 0,
                gpu_memory_mb: 0,
            }),
    {
        let r = ResourceInterface {
            allocations: Vec::new(),
            total_limits: limits,
            current_usage: ResourceUsage {
                memory_mb: 0,
                cpu_cores: 0,
                storage_mb: 0,
                network_bandwidth_mbps: 0,
                gpu_memory_mb: 0,
            },
        };
        assert(r@.allocations =~= Seq::<AllocationView>::empty());
        r
    }

    /// How much of each resource is in use.
    pub fn list_current_allocation(&self) -> (r: HalResult<ResourceUsage>)
        ensures
            r == Ok::<ResourceUsage, HalError>(self@.usage),
    {
        Ok(self.current_usage)
    }

    /// The limits the interface was made with.
    pub fn get_system_limits(&self) -> (r: HalResult<ResourceLimits>)
        ensures
            r == Ok::<ResourceLimits, HalError>(self@.limits),
    {
        Ok(self.total_limits)
    }

    /// Whether `amount` more of the requested kind stays within its limit.
    fn check_resource_availability(&self, request: &ResourceRequest) -> (b: bool)
        requires
            self.wf(),
            grant_in_range(self@, request.resource_type, request.amount),
        ensures
            b == fits(self@, request.resource_type, request.amount),
    {
        let u = &self.current_usage;
        let l = &self.total_limits;
        match request.resource_type {
            ResourceType::Memory => u.memory_mb + request.amount <= l.max_memory_mb,
            ResourceType::CpuCores => u.cpu_cores + request.amount as u32 <= l.max_cpu_cores,
            ResourceType::Storage => u.storage_mb + request.amount <= l.max_storage_mb,
            ResourceType::NetworkBandwidth => u.network_bandwidth_mbps + request.amount
                <= l.max_network_bandwidth_mbps,
            ResourceType::GpuMemory => u.gpu_memory_mb + request.amount <= l.max_gpu_memory_mb,
        }
    }

    /// The position of the allocation with identifier `id`, if there is one.
    fn find_allocation(&self, id: &String) -> (r: Option<usize>)
        requires
            self.wf(),
        ensures
            match r {
                Some(i) => {
                    &&& has_id(self@.allocations, id@)
                    &&& i as int == position_of(self@.allocations, id@)
                    &&& i < self@.allocations.len()
                },
                None => !has_id(self@.allocations, id@),
            },
    {
        let n = self.allocations.len();
        let mut i: usize = 0;
        while i < n
            invariant
                self.wf(),
                n == self.allocations@.len(),
                i <= n,
                forall|j: int| 0 <= j < i ==> self@.allocations[j].allocation_id != id@,
            decreases n - i,
        {
            if self.allocations[i].allocation_id == *id {
                proof {
                    let a = self@.allocations;
                    assert(a[i as int].allocation_id == id@);
                    assert(has_id(a, id@));
                    let p = position_of(a, id@);
                    assert(a[p].allocation_id == id@);
                    assert(p == i);
                }
                return Some(i);
            }
            i = i + 1;
        }
        None
    }

    /// The identifier for `request` granted at `now_millis` (see
    /// `allocation_id_for`).
    fn generate_allocation_id(&self, request: &ResourceRequest, now_millis: u128) -> (id: String)
        ensures
            id@ == allocation_id_for(request@, now_millis as nat),
    {
        let mut out: Vec<char> = Vec::new();
        push_str(&mut out, resource_type_name(request.resource_type));
        out.push('_');
        push_str(&mut out, request.requester.as_str());
        out.push('_');
        push_decimal(&mut out, request.amount as u128);
        out.push('_');
        push_decimal(&mut out, now_millis);
        let id = string_from_chars(out);
        assert(id@ =~= allocation_id_for(request@, now_millis as nat));
        id
    }

    /// Grants or refuses `request` as of `now_millis` milliseconds after the
    /// Unix epoch (see `allocation_outcome_at`).
    pub fn allocate_resource_at(&mut self, request: ResourceRequest, now_millis: u128) -> (r:
        HalResult<AllocationResult>)
        requires
            old(self).wf(),
            grant_in_range(old(self)@, request.resource_type, request.amount),
            now_millis / 1000 <= u64::MAX,
        ensures
            final(self).wf(),
            allocation_outcome_at(old(self)@, request@, now_millis as nat, final(self)@, r),
    {
        let ghost pre = self@;
        let kind = request.resource_type;
        if !self.check_resource_availability(&request) {
            let mut msg: Vec<char> = Vec::new();
            push_str(&mut msg, "Insufficient ");
            push_str(&mut msg, resource_type_name(kind));
            push_str(&mut msg, " resources available");
            let m = string_from_chars(msg);
            assert(m@ =~= insufficient_message(kind));
            return Err(HalError::ResourceError(m));
        }
        let now_secs: u64 = (now_millis / 1000) as u64;
        let expires_at: Option<u64> = match request.timeout_seconds {
            Some(t) => match now_secs.checked_add(t) {
                Some(e) => Some(e),
                None => {
                    let m = String::from_str("Requested timeout is too large");
                    return Err(HalError::InvalidParameter(m));
                },
            },
            None => None,
        };
        let allocation_id = self.generate_allocation_id(&request, now_millis);
        let amount = request.amount;
        match kind {
            ResourceType::Memory => {
                self.current_usage.memory_mb = self.current_usage.memory_mb + amount;
            },
            ResourceType::CpuCores => {
                self.current_usage.cpu_cores = self.current_usage.cpu_cores + amount as u32;
            },
            ResourceType::Storage => {
                self.current_usage.storage_mb = self.current_usage.storage_mb + amount;
            },
            ResourceType::NetworkBandwidth => {
                self.current_usage.network_bandwidth_mbps = self.current_usage.network_bandwidth_mbps
                    + amount;
            },
            ResourceType::GpuMemory => {
                self.current_usage.gpu_memory_mb = self.current_usage.gpu_memory_mb + amount;
            },
        }
        let allocation = ResourceAllocation {
            allocation_id: allocation_id.clone(),
            resource_type: kind,
            amount,
            allocated_at: now_secs,
            requester: request.requester,
            expires_at,
        };
        let ghost rec = allocation@;
        assert(rec == record_for(request@, now_millis as nat));
        match self.find_allocation(&allocation_id) {
            Some(i) => {
                self.allocations.set(i, allocation);
                proof {
                    assert(allocation_views(self.allocations@) =~= pre.allocations.update(
                        i as int,
                        rec,
                    ));
                }
            },
            None => {
                self.allocations.push(allocation);
                proof {
                    assert(allocation_views(self.allocations@) =~= pre.allocations.push(rec));
                }
            },
        }
        proof {
            assert(self@.usage == granted_usage(pre.usage, kind, amount));
            assert(self@ == after_grant(pre, request@, now_millis as nat));
            assert(ids_distinct(self@.allocations)) by {
                let a = self@.allocations;
                assert forall|i: int, j: int|
                    0 <= i < a.len() && 0 <= j < a.len() && i != j implies #[trigger] a[i].allocation_id
                    != #[trigger] a[j].allocation_id by {
                    if i < pre.allocations.len() && j < pre.allocations.len() {
                        assert(pre.allocations[i].allocation_id != pre.allocations[j].allocation_id);
                    }
                }
            }
        }
        Ok(AllocationResult { allocation_id, granted_amount: amount, expires_at })
    }

    /// Releases the allocation with identifier `allocation_id` and gives its
    /// amount back; a counter stops at zero. An unknown identifier is
    /// reported as `NotFound` and changes nothing.
    pub fn release_resource(&mut self, allocation_id: &str) -> (r: HalResult<()>)
        requires
            old(self).wf(),
        ensures
            final(self).wf(),
            has_id(old(self)@.allocations, allocation_id@) ==> {
                &&& r is Ok
                &&& final(self)@ == after_release(
                    old(self)@,
                    position_of(old(self)@.allocations, allocation_id@),
                )
            },
            !has_id(old(self)@.allocations, allocation_id@) ==> {
                &&& r matches Err(HalError::NotFound(m)) && m@ == not_found_message(allocation_id@)
                &&& final(self)@ == old(self)@
            },
    {
        let ghost pre = self@;
        let key = allocation_id.to_owned();
        let i = match self.find_allocation(&key) {
            Some(i) => i,
            None => {
                let mut msg: Vec<char> = Vec::new();
                push_str(&mut msg, "Allocation '");
                push_str(&mut msg, allocation_id);
                push_str(&mut msg, "' not found");
                let m = string_from_chars(msg);
                assert(m@ =~= not_found_message(allocation_id@));
                return Err(HalError::NotFound(m));
            },
        };
        let allocation = self.allocations.remove(i);
        assert(allocation@ == pre.allocations[i as int]);
        let amount = allocation.amount;
        match allocation.resource_type {
            ResourceType::Memory => {
                self.current_usage.memory_mb = self.current_usage.memory_mb.saturating_sub(amount);
            },
            ResourceType::CpuCores => {
                self.current_usage.cpu_cores = self.current_usage.cpu_cores.saturating_sub(
                    amount as u32,
                );
            },
            ResourceType::Storage => {
                self.current_usage.storage_mb = self.current_usage.storage_mb.saturating_sub(
                    amount,
                );
            },
            ResourceType::NetworkBandwidth => {
                self.current_usage.network_bandwidth_mbps =
                self.current_usage.network_bandwidth_mbps.saturating_sub(amount);
            },
            ResourceType::GpuMemory => {
                self.current_usage.gpu_memory_mb = self.current_usage.gpu_memory_mb.saturating_sub(
                    amount,
                );
            },
        }
        proof {
            assert(allocation_views(self.allocations@) =~= pre.allocations.remove(i as int));
            assert(self@ == after_release(pre, i as int));
            let a = self@.allocations;
            assert forall|x: int, y: int|
                0 <= x < a.len() && 0 <= y < a.len() && x != y implies #[trigger] a[x].allocation_id
                != #[trigger] a[y].allocation_id by {
                let px = if x < i { x } else { x + 1 };
                let py = if y < i { y } else { y + 1 };
                assert(a[x] == pre.allocations[px]);
                assert(a[y] == pre.allocations[py]);
            }
        }
        Ok(())
    }

    /// The record of the allocation with identifier `allocation_id`.
    pub fn get_allocation_info(&self, allocation_id: &str) -> (r: HalResult<ResourceAllocation>)
        requires
            self.wf(),
        ensures
            has_id(self@.allocations, allocation_id@) ==> (r matches Ok(a) && a@
                == self@.allocations[position_of(self@.allocations, allocation_id@)]),
            !has_id(self@.allocations, allocation_id@) ==> (r matches Err(HalError::NotFound(m))
                && m@ == not_found_message(allocation_id@)),
    {
        let key = allocation_id.to_owned();
        match self.find_allocation(&key) {
            Some(i) => Ok(self.allocations[i].clone()),
            None => {
                let mut msg: Vec<char> = Vec::new();
                push_str(&mut msg, "Allocation '");
                push_str(&mut msg, allocation_id);
                push_str(&mut msg, "' not found");
                let m = string_from_chars(msg);
                assert(m@ =~= not_found_message(allocation_id@));
                Err(HalError::NotFound(m))
            },
        }
    }

    /// Every allocation record, oldest first.
    pub fn list_allocations(&self) -> (r: HalResult<Vec<ResourceAllocation>>)
        ensures
            r matches Ok(v) && allocation_views(v@) == self@.allocations,
    {
        let mut out: Vec<ResourceAllocation> = Vec::new();
        let n = self.allocations.len();
        let mut i: usize = 0;
        while i < n
            invariant
                n == self.allocations@.len(),
                i <= n,
                allocation_views(out@) == self@.allocations.take(i as int),
            decreases n - i,
        {
            let c = self.allocations[i].clone();
            assert(c@ == self@.allocations[i as int]);
            let ghost before = out@;
            out.push(c);
            assert(allocation_views(out@) =~= allocation_views(before).push(c@));
            assert(self@.allocations.take(i + 1) =~= self@.allocations.take(i as int).push(c@));
            i = i + 1;
        }
        assert(self@.allocations.take(n as int) =~= self@.allocations);
        Ok(out)
    }

    /// The records of the allocations made for `requester`, oldest first.
    pub fn list_allocations_by_requester(&self, requester: &str) -> (r: HalResult<
        Vec<ResourceAllocation>,
    >)
        ensures
            r matches Ok(v) && allocation_views(v@) == self@.allocations.filter(
                requested_by(requester@),
            ),
            r matches Ok(v) ==> forall|i: int| 0 <= i < v@.len() ==> (#[trigger] v@[i]).requester@
                == requester@,
            r matches Ok(v) ==> forall|j: int|
                0 <= j < self@.allocations.len() && (#[trigger] self@.allocations[j]).requester
                    == requester@ ==> allocation_views(v@).contains(self@.allocations[j]),
    {
        let ghost pred = requested_by(requester@);
        let key = requester.to_owned();
        let mut out: Vec<ResourceAllocation> = Vec::new();
        let n = self.allocations.len();
        let mut i: usize = 0;
        assert(self@.allocations.take(0).filter(pred) =~= Seq::<AllocationView>::empty()) by {
            reveal(Seq::filter);
        }
        while i < n
            invariant
                n == self.allocations@.len(),
                i <= n,
                key@ == requester@,
                pred == requested_by(requester@),
                allocation_views(out@) == self@.allocations.take(i as int).filter(pred),
            decreases n - i,
        {
            let ghost before = allocation_views(out@);
            assert(self@.allocations.take(i + 1) =~= self@.allocations.take(i as int).push(
                self@.allocations[i as int],
            ));
            proof {
                self@.allocations.take(i as int).lemma_filter_push(self@.allocations[i as int], pred);
            }
            let ghost cur = self@.allocations[i as int];
            assert(cur.requester == self.allocations@[i as int].requester@);
            let same = self.allocations[i].requester == key;
            if same {
                assert(self.allocations@[i as int].requester@ == key@);
                assert(pred(cur));
                let c = self.allocations[i].clone();
                assert(c@ == cur);
                let ghost before_v = out@;
                out.push(c);
                assert(allocation_views(out@) =~= allocation_views(before_v).push(c@));
            } else {
                assert(!pred(cur));
            }
            i = i + 1;
        }
        assert(self@.allocations.take(n as int) =~= self@.allocations);
        proof {
            lemma_requester_listing(self@.allocations, requester@);
            assert forall|i: int| 0 <= i < out@.len() implies (#[trigger] out@[i]).requester@
                == requester@ by {
                assert(allocation_views(out@)[i] == out@[i]@);
            }
        }
        Ok(out)
    }

    /// Releases every allocation whose expiry lies at or before `now_secs`
    /// (seconds after the Unix epoch), giving its amount back as
    /// `release_resource` does, and returns their identifiers, oldest first.
    /// Allocations made without a timeout never expire.
    pub fn cleanup_expired_allocations(&mut self, now_secs: u64) -> (r: HalResult<Vec<String>>)
        requires
            old(self).wf(),
        ensures
            final(self).wf(),
            final(self)@ == after_cleanup(old(self)@, now_secs),
            r matches Ok(ids) && id_views(ids@) == expired_ids(old(self)@.allocations, now_secs),
    {
        let ghost pre = self@;
        let ghost a = pre.allocations;
        let mut old_allocs: Vec<ResourceAllocation> = Vec::new();
        std::mem::swap(&mut old_allocs, &mut self.allocations);
        assert(allocation_views(old_allocs@) == a);
        let mut kept: Vec<ResourceAllocation> = Vec::new();
        let mut ids: Vec<String> = Vec::new();
        let mut usage = self.current_usage;
        let n = old_allocs.len();
        let mut i: usize = 0;
        proof {
            reveal(Seq::filter);
            assert(a.take(0) =~= Seq::<AllocationView>::empty());
            assert(a.take(0).filter(live_at(now_secs)) =~= Seq::<AllocationView>::empty());
            assert(a.take(0).filter(expired_by(now_secs)) =~= Seq::<AllocationView>::empty());
            assert(id_views(ids@) =~= Seq::<Seq<char>>::empty());
            assert(allocation_views(kept@) =~= Seq::<AllocationView>::empty());
        }
        while i < n
            invariant
                n == old_allocs@.len(),
                i <= n,
                a == allocation_views(old_allocs@),
                pre.limits == self.total_limits,
                usage_within_limits(usage, pre.limits),
                usage == usage_after_expiry(pre.usage, a.take(i as int), now_secs),
                allocation_views(kept@) == a.take(i as int).filter(live_at(now_secs)),
                id_views(ids@) == a.take(i as int).filter(expired_by(now_secs)).map_values(
                    |x: AllocationView| x.allocation_id,
                ),
            decreases n - i,
        {
            let ghost x = a[i as int];
            assert(old_allocs@[i as int]@ == x);
            assert(a.take(i + 1) =~= a.take(i as int).push(x));
            assert(a.take(i + 1).drop_last() =~= a.take(i as int));
            proof {
                a.take(i as int).lemma_filter_push(x, live_at(now_secs));
                a.take(i as int).lemma_filter_push(x, expired_by(now_secs));
            }
            let expired = match old_allocs[i].expires_at {
                Some(e) => e <= now_secs,
                None => false,
            };
            assert(expired == is_expired(x, now_secs));
            if expired {
                proof {
                    lemma_released_within_limits(usage, x.resource_type, x.amount, pre.limits);
                }
                usage = give_back(usage, old_allocs[i].resource_type, old_allocs[i].amount);
                let id = old_allocs[i].allocation_id.clone();
                let ghost before = ids@;
                ids.push(id);
                assert(id_views(ids@) =~= id_views(before).push(x.allocation_id));
                let ghost f = a.take(i as int).filter(expired_by(now_secs));
                assert(f.push(x).map_values(|y: AllocationView| y.allocation_id) =~= f.map_values(
                    |y: AllocationView| y.allocation_id,
                ).push(x.allocation_id));
            } else {
                let c = old_allocs[i].clone();
                let ghost before = kept@;
                kept.push(c);
                assert(allocation_views(kept@) =~= allocation_views(before).push(x));
            }
            i = i + 1;
        }
        assert(a.take(n as int) =~= a);
        proof {
            lemma_filter_ids_distinct(a, live_at(now_secs));
        }
        self.allocations = kept;
        self.current_usage = usage;
        assert(self@ == after_cleanup(pre, now_secs));
        Ok(ids)
    }

    /// Grants or refuses `request` as of the current time of the system
    /// clock (see `allocation_outcome`).
    pub fn allocate_resource(&mut self, request: ResourceRequest) -> (r: HalResult<AllocationResult>)
        requires
            old(self).wf(),
            grant_in_range(old(self)@, request.resource_type, request.amount),
        ensures
            final(self).wf(),
            allocation_outcome(old(self)@, request@, final(self)@, r),
    {
        let ghost pre = self@;
        let ghost req = request@;
        let now_millis = unix_time_millis();
        let r = self.allocate_resource_at(request, now_millis);
        assert(allocation_outcome_at(pre, req, now_millis as nat, self@, r));
        r
    }

    /// Asks for `memory_mb` MB of memory for `requester`, with normal priority
    /// and no timeout.
    pub fn request_additional_memory(&mut self, memory_mb: u64, requester: &str) -> (r: HalResult<
        AllocationResult,
    >)
        requires
            old(self).wf(),
            grant_in_range(old(self)@, ResourceType::Memory, memory_mb),
        ensures
            final(self).wf(),
            allocation_outcome(
                old(self)@,
                plain_request(ResourceType::Memory, memory_mb, requester@),
                final(self)@,
                r,
            ),
    {
        let request = ResourceRequest {
            resource_type: ResourceType::Memory,
            amount: memory_mb,
            requester: requester.to_owned(),
            priority: RequestPriority::Normal,
            timeout_seconds: None,
        };
        self.allocate_resource(request)
    }

    /// Asks for `cpu_cores` CPU cores for `requester`, with normal priority
    /// and no timeout.
    pub fn request_additional_cpu(&mut self, cpu_cores: u32, requester: &str) -> (r: HalResult<
        AllocationResult,
    >)
        requires
            old(self).wf(),
            grant_in_range(old(self)@, ResourceType::CpuCores, cpu_cores as u64),
        ensures
            final(self).wf(),
            allocation_outcome(
                old(self)@,
                plain_request(ResourceType::CpuCores, cpu_cores as u64, requester@),
                final(self)@,
                r,
            ),
    {
        let request = ResourceRequest {
            resource_type: ResourceType::CpuCores,
            amount: cpu_cores as u64,
            requester: requester.to_owned(),
            priority: RequestPriority::Normal,
            timeout_seconds: None,
        };
        self.allocate_resource(request)
    }

    /// Asks for `storage_mb` MB of storage for `requester`, with normal
    /// priority and no timeout.
    pub fn request_storage(&mut self, storage_mb: u64, requester: &str) -> (r: HalResult<
        AllocationResult,
    >)
        requires
            old(self).wf(),
            grant_in_range(old(self)@, ResourceType::Storage, storage_mb),
        ensures
            final(self).wf(),
            allocation_outcome(
                old(self)@,
                plain_request(ResourceType::Storage, storage_mb, requester@),
                final(self)@,
                r,
            ),
    {
        let request = ResourceRequest {
            resource_type: ResourceType::Storage,
            amount: storage_mb,
            requester: requester.to_owned(),
            priority: RequestPriority::Normal,
            timeout_seconds: None,
        };
        self.allocate_resource(request)
    }

    /// Asks for `bandwidth_mbps` Mbps of network bandwidth for `requester`,
    /// with normal priority and no timeout.
    pub fn request_network_bandwidth(&mut self, bandwidth_mbps: u64, requester: &str) -> (r:
        HalResult<AllocationResult>)
        requires
            old(self).wf(),
            grant_in_range(old(self)@, ResourceType::NetworkBandwidth, bandwidth_mbps),
        ensures
            final(self).wf(),
            allocation_outcome(
                old(self)@,
                plain_request(ResourceType::NetworkBandwidth, bandwidth_mbps, requester@),
                final(self)@,
                r,
            ),
    {
        let request = ResourceRequest {
            resource_type: ResourceType::NetworkBandwidth,
            amount: bandwidth_mbps,
            requester: requester.to_owned(),
            priority: RequestPriority::Normal,
            timeout_seconds: None,
        };
        self.allocate_resource(request)
    }

    /// Asks for `gpu_memory_mb` MB of GPU memory for `requester`, with normal
    /// priority and no timeout.
    pub fn request_gpu_memory(&mut self, gpu_memory_mb: u64, requester: &str) -> (r: HalResult<
        AllocationResult,
    >)
        requires
            old(self).wf(),
            grant_in_range(old(self)@, ResourceType::GpuMemory, gpu_memory_mb),
        ensures
            final(self).wf(),
            allocation_outcome(
                old(self)@,
                plain_request(ResourceType::GpuMemory, gpu_memory_mb, requester@),
                final(self)@,
                r,
            ),
    {
        let request = ResourceRequest {
            resource_type: ResourceType::GpuMemory,
            amount: gpu_memory_mb,
            requester: requester.to_owned(),
            priority: RequestPriority::Normal,
            timeout_seconds: None,
        };
        self.allocate_resource(request)
    }
}


/// The units of `kind` that the allocations in `a` hold together.
pub open spec fn units_total(a: Seq<AllocationView>, kind: ResourceType) -> int
    decreases a.len(),
{
    if a.len() == 0 {
        0
    } else {
        units_total(a.drop_last(), kind) + if a.last().resource_type == kind {
            units(kind, a.last().amount)
        } else {
            0
        }
    }
}

/// Whether every counter equals the units that the live allocations of its
/// kind hold together.
pub open spec fn accounting_consistent(s: ResourceState) -> bool {
    forall|kind: ResourceType| #[trigger] in_use(s.usage, kind) == units_total(s.allocations, kind)
}

proof fn lemma_with_in_use(u: ResourceUsage, kind: ResourceType, v: int)
    requires
        0 <= v <= counter_max(kind),
    ensures
        forall|k: ResourceType|
            #[trigger] in_use(with_in_use(u, kind, v), k) == if k == kind {
                v
            } else {
                in_use(u, k)
            },
{
}

proof fn lemma_units_nonneg(kind: ResourceType, amount: u64)
    ensures
        0 <= units(kind, amount) <= counter_max(kind),
{
}

proof fn lemma_units_total_nonneg(a: Seq<AllocationView>, kind: ResourceType)
    ensures
        units_total(a, kind) >= 0,
    decreases a.len(),
{
    if a.len() > 0 {
        lemma_units_total_nonneg(a.drop_last(), kind);
        lemma_units_nonneg(kind, a.last().amount);
    }
}

proof fn lemma_units_total_remove(a: Seq<AllocationView>, i: int, kind: ResourceType)
    requires
        0 <= i < a.len(),
    ensures
        units_total(a, kind) == units_total(a.remove(i), kind) + if a[i].resource_type == kind {
            units(kind, a[i].amount)
        } else {
            0
        },
    decreases a.len(),
{
    if i == a.len() - 1 {
        assert(a.remove(i) =~= a.drop_last());
    } else {
        lemma_units_total_remove(a.drop_last(), i, kind);
        assert(a.remove(i).drop_last() =~= a.drop_last().remove(i));
        assert(a.remove(i).last() == a.last());
    }
}

/// Granting a request whose identifier is new keeps every counter equal to
/// what the live allocations of its kind hold together.
pub proof fn lemma_grant_keeps_accounting(s: ResourceState, req: RequestView, now_millis: nat)
    requires
        accounting_consistent(s),
        grant_in_range(s, req.resource_type, req.amount),
        !has_id(s.allocations, allocation_id_for(req, now_millis)),
    ensures
        accounting_consistent(after_grant(s, req, now_millis)),
{
    let t = after_grant(s, req, now_millis);
    let rec = record_for(req, now_millis);
    let kind = req.resource_type;
    lemma_units_nonneg(kind, req.amount);
    lemma_with_in_use(s.usage, kind, in_use(s.usage, kind) + units(kind, req.amount));
    assert(t.allocations == s.allocations.push(rec));
    assert(t.allocations.drop_last() =~= s.allocations);
    assert forall|k: ResourceType| #[trigger] in_use(t.usage, k) == units_total(t.allocations, k) by {
        assert(in_use(s.usage, k) == units_total(s.allocations, k));
    }
}

/// Releasing an allocation keeps every counter equal to what the live
/// allocations of its kind hold together; no counter is then cut at zero.
pub proof fn lemma_release_keeps_accounting(s: ResourceState, i: int)
    requires
        accounting_consistent(s),
        0 <= i < s.allocations.len(),
    ensures
        accounting_consistent(after_release(s, i)),
{
    let t = after_release(s, i);
    let a = s.allocations[i];
    let kind = a.resource_type;
    lemma_units_total_remove(s.allocations, i, kind);
    lemma_units_total_nonneg(s.allocations.remove(i), kind);
    assert(in_use(s.usage, kind) == units_total(s.allocations, kind));
    let left = in_use(s.usage, kind) - units(kind, a.amount);
    assert(left >= 0);
    assert(left <= counter_max(kind)) by {
        lemma_units_nonneg(kind, a.amount);
        assert(in_use(s.usage, kind) <= counter_max(kind));
    }
    lemma_with_in_use(s.usage, kind, left);
    assert forall|k: ResourceType| #[trigger] in_use(t.usage, k) == units_total(t.allocations, k) by {
        lemma_units_total_remove(s.allocations, i, k);
        assert(in_use(s.usage, k) == units_total(s.allocations, k));
    }
}

/// Releasing the allocation that a grant with a new identifier just made
/// gives back the state from before the grant: the identifier names the last
/// allocation, and removing it restores both the records and the counters.
pub proof fn lemma_release_undoes_grant(s: ResourceState, req: RequestView, now_millis: nat)
    requires
        ids_distinct(s.allocations),
        grant_in_range(s, req.resource_type, req.amount),
        !has_id(s.allocations, allocation_id_for(req, now_millis)),
    ensures
        ({
            let t = after_grant(s, req, now_millis);
            let id = allocation_id_for(req, now_millis);
            &&& has_id(t.allocations, id)
            &&& position_of(t.allocations, id) == s.allocations.len()
            &&& after_release(t, position_of(t.allocations, id)) == s
        }),
{
    let t = after_grant(s, req, now_millis);
    let id = allocation_id_for(req, now_millis);
    let n = s.allocations.len() as int;
    let kind = req.resource_type;
    assert(t.allocations == s.allocations.push(record_for(req, now_millis)));
    assert(t.allocations[n].allocation_id == id);
    assert(has_id(t.allocations, id));
    let p = position_of(t.allocations, id);
    if p != n {
        assert(s.allocations[p].allocation_id == id);
    }
    assert(t.allocations.remove(n) =~= s.allocations);
    lemma_units_nonneg(kind, req.amount);
    let u = s.usage;
    let g = granted_usage(u, kind, req.amount);
    lemma_with_in_use(u, kind, in_use(u, kind) + units(kind, req.amount));
    assert(in_use(g, kind) == in_use(u, kind) + units(kind, req.amount));
    assert(released_usage(g, kind, req.amount) == u);
}

/// After a grant, the identifier it returned names the record made for the
/// request, whether the identifier was new or replaced an older record.
pub proof fn lemma_read_after_grant(s: ResourceState, req: RequestView, now_millis: nat)
    requires
        ids_distinct(s.allocations),
    ensures
        ({
            let t = after_grant(s, req, now_millis);
            let id = allocation_id_for(req, now_millis);
            &&& has_id(t.allocations, id)
            &&& t.allocations[position_of(t.allocations, id)] == record_for(req, now_millis)
        }),
{
    let t = after_grant(s, req, now_millis);
    let id = allocation_id_for(req, now_millis);
    let rec = record_for(req, now_millis);
    let a = s.allocations;
    if has_id(a, id) {
        let q = position_of(a, id);
        assert(t.allocations == a.update(q, rec));
        assert(t.allocations[q].allocation_id == id);
        assert(has_id(t.allocations, id));
        let p = position_of(t.allocations, id);
        if p != q {
            assert(t.allocations[p] == a[p]);
            assert(a[p].allocation_id == a[q].allocation_id);
        }
    } else {
        let n = a.len() as int;
        assert(t.allocations == a.push(rec));
        assert(t.allocations[n].allocation_id == id);
        assert(has_id(t.allocations, id));
        let p = position_of(t.allocations, id);
        if p != n {
            assert(a[p].allocation_id == id);
        }
    }
}


/// The label of the total-memory line of `/proc/meminfo`.
pub open spec fn memtotal_label() -> Seq<char> {
    "MemTotal:"@
}

/// The kilobytes that one line of `/proc/meminfo` gives as total memory: the
/// second word of a line that starts with `MemTotal:`, read as a `u64`.
pub open spec fn line_total_kb(line: Seq<char>) -> Option<u64> {
    if memtotal_label().is_prefix_of(line) && tokens_of(line).len() > 1 {
        parse_u64_spec(tokens_of(line)[1])
    } else {
        None
    }
}

/// The total memory that the first line giving one reports.
pub open spec fn first_total_kb(lines: Seq<Seq<char>>) -> Option<u64>
    decreases lines.len(),
{
    if lines.len() == 0 {
        None
    } else {
        match line_total_kb(lines[0]) {
            Some(kb) => Some(kb),
            None => first_total_kb(lines.drop_first()),
        }
    }
}

/// The total memory, in MB, that a `/proc/meminfo` text reports.
pub open spec fn meminfo_total_mb(meminfo: Seq<char>) -> Option<u64> {
    match first_total_kb(lines_of(meminfo)) {
        Some(kb) => Some(kb / 1024),
        None => None,
    }
}

/// The part of memory, in percent, that stays usable under memory
/// encryption: 92 under TDX, 94 under SEV, all of it otherwise.
pub open spec fn memory_percent_kept(is_tdx: bool, is_sev: bool) -> u64 {
    if is_tdx {
        92
    } else if is_sev {
        94
    } else {
        100
    }
}

/// The limits of a platform with the given detected memory, cores and
/// storage (8192 MB, 4 cores and 102400 MB where nothing was detected):
/// memory less the encryption overhead of TDX or SEV, 1000 Mbps of network,
/// and 8192 MB of GPU memory except under TDX, which passes no GPU through.
pub open spec fn platform_limits(
    memory_mb: Option<u64>,
    cpu_cores: Option<u32>,
    storage_mb: Option<u64>,
    is_tdx: bool,
    is_sev: bool,
) -> ResourceLimits {
    let mem = match memory_mb {
        Some(m) => m,
        None => 8192u64,
    };
    ResourceLimits {
        max_memory_mb: if is_tdx || is_sev {
            (mem * memory_percent_kept(is_tdx, is_sev) / 100) as u64
        } else {
            mem
        },
        max_cpu_cores: match cpu_cores {
            Some(c) => c,
            None => 4u32,
        },
        max_storage_mb: match storage_mb {
            Some(m) => m,
            None => 102400u64,
        },
        max_network_bandwidth_mbps: 1000,
        max_gpu_memory_mb: if is_tdx {
            0
        } else {
            8192
        },
    }
}

impl ResourceInterface {
    /// Reads the total memory, in MB, from the text of `/proc/meminfo` (see
    /// `meminfo_total_mb`).
    pub fn memory_mb_from_meminfo(meminfo: &str) -> (r: Option<u64>)
        ensures
            r == meminfo_total_mb(meminfo@),
    {
        let text = chars_of(meminfo);
        let lines = split_lines(&text);
        let label = chars_of("MemTotal:");
        let ghost ls = views_of(lines@);
        let n = lines.len();
        let mut i: usize = 0;
        assert(ls.skip(0) =~= ls);
        while i < n
            invariant
                n == lines@.len(),
                ls == views_of(lines@),
                ls == lines_of(meminfo@),
                label@ == memtotal_label(),
                i <= n,
                first_total_kb(ls) == first_total_kb(ls.skip(i as int)),
            decreases n - i,
        {
            let line = &lines[i];
            assert(line@ == ls[i as int]);
            assert(ls.skip(i as int)[0] == ls[i as int]);
            assert(ls.skip(i as int).drop_first() =~= ls.skip(i + 1));
            if starts_with(line, &label) {
                let words = split_whitespace(line);
                if words.len() > 1 {
                    assert(words@[1]@ == tokens_of(line@)[1]);
                    match parse_u64(&words[1]) {
                        Some(kb) => {
                            return Some(kb / 1024);
                        },
                        None => {},
                    }
                }
            }
            i = i + 1;
        }
        None
    }

    /// Storage assumed available, in MB: a fixed 100 GB.
    pub fn get_available_storage_mb() -> (r: Option<u64>)
        ensures
            r == Some(102400u64),
    {
        Some(102400)
    }

    /// The limits of a platform (see `platform_limits`); `is_tdx` and
    /// `is_sev` tell whether the guest runs under Intel TDX or AMD SEV.
    pub fn system_limits_from(
        memory_mb: Option<u64>,
        cpu_cores: Option<u32>,
        storage_mb: Option<u64>,
        is_tdx: bool,
        is_sev: bool,
    ) -> (l: ResourceLimits)
        requires
            is_tdx || is_sev ==> match memory_mb {
                Some(m) => m * memory_percent_kept(is_tdx, is_sev) <= u64::MAX,
                None => true,
            },
        ensures
            l == platform_limits(memory_mb, cpu_cores, storage_mb, is_tdx, is_sev),
    {
        let mem: u64 = match memory_mb {
            Some(m) => m,
            None => 8192,
        };
        let cores: u32 = match cpu_cores {
            Some(c) => c,
            None => 4,
        };
        let storage: u64 = match storage_mb {
            Some(m) => m,
            None => 102400,
        };
        let adjusted: u64 = if is_tdx || is_sev {
            let overhead_percent: u64 = if is_tdx {
                8
            } else {
                6
            };
            mem * (100 - overhead_percent) / 100
        } else {
            mem
        };
        ResourceLimits {
            max_memory_mb: adjusted,
            max_cpu_cores: cores,
            max_storage_mb: storage,
            max_network_bandwidth_mbps: 1000,
            max_gpu_memory_mb: if is_tdx {
                0
            } else {
                8192
            },
        }
    }
}


proof fn lemma_units_total_push(a: Seq<AllocationView>, x: AllocationView, kind: ResourceType)
    ensures
        units_total(a.push(x), kind) == units_total(a, kind) + if x.resource_type == kind {
            units(kind, x.amount)
        } else {
            0
        },
{
    assert(a.push(x).drop_last() =~= a);
}

proof fn lemma_units_total_split(a: Seq<AllocationView>, now_secs: u64, kind: ResourceType)
    ensures
        units_total(a, kind) == units_total(a.filter(live_at(now_secs)), kind) + units_total(
            a.filter(expired_by(now_secs)),
            kind,
        ),
    decreases a.len(),
{
    if a.len() > 0 {
        let b = a.drop_last();
        let x = a.last();
        lemma_units_total_split(b, now_secs, kind);
        assert(b.push(x) =~= a);
        b.lemma_filter_push(x, live_at(now_secs));
        b.lemma_filter_push(x, expired_by(now_secs));
        lemma_units_total_push(b.filter(live_at(now_secs)), x, kind);
        lemma_units_total_push(b.filter(expired_by(now_secs)), x, kind);
    } else {
        reveal(Seq::filter);
    }
}

proof fn lemma_usage_after_expiry(u: ResourceUsage, a: Seq<AllocationView>, now_secs: u64)
    requires
        forall|k: ResourceType| in_use(u, k) >= #[trigger] units_total(
            a.filter(expired_by(now_secs)),
            k,
        ),
    ensures
        forall|k: ResourceType| #[trigger] in_use(usage_after_expiry(u, a, now_secs), k) == in_use(
            u,
            k,
        ) - units_total(a.filter(expired_by(now_secs)), k),
    decreases a.len(),
{
    if a.len() == 0 {
        reveal(Seq::filter);
    } else {
        let b = a.drop_last();
        let x = a.last();
        let p = expired_by(now_secs);
        assert(b.push(x) =~= a);
        b.lemma_filter_push(x, p);
        assert forall|k: ResourceType| in_use(u, k) >= #[trigger] units_total(b.filter(p), k) by {
            lemma_units_total_push(b.filter(p), x, k);
            lemma_units_nonneg(k, x.amount);
            assert(in_use(u, k) >= units_total(a.filter(p), k));
        }
        lemma_usage_after_expiry(u, b, now_secs);
        let v = usage_after_expiry(u, b, now_secs);
        if is_expired(x, now_secs) {
            let kind = x.resource_type;
            lemma_units_total_push(b.filter(p), x, kind);
            lemma_units_nonneg(kind, x.amount);
            let left = in_use(v, kind) - units(kind, x.amount);
            assert(left >= 0) by {
                assert(in_use(u, kind) >= units_total(a.filter(p), kind));
            }
            assert(left <= counter_max(kind));
            lemma_with_in_use(v, kind, left);
            assert forall|k: ResourceType| #[trigger] in_use(usage_after_expiry(u, a, now_secs), k)
                == in_use(u, k) - units_total(a.filter(p), k) by {
                lemma_units_total_push(b.filter(p), x, k);
            }
        } else {
            assert forall|k: ResourceType| #[trigger] in_use(usage_after_expiry(u, a, now_secs), k)
                == in_use(u, k) - units_total(a.filter(p), k) by {
                lemma_units_total_push(b.filter(p), x, k);
            }
        }
    }
}

/// Releasing the expired allocations keeps every counter equal to what the
/// live allocations of its kind hold together; no counter is then cut at
/// zero.
pub proof fn lemma_cleanup_keeps_accounting(s: ResourceState, now_secs: u64)
    requires
        accounting_consistent(s),
    ensures
        accounting_consistent(after_cleanup(s, now_secs)),
{
    let a = s.allocations;
    assert forall|k: ResourceType| in_use(s.usage, k) >= #[trigger] units_total(
        a.filter(expired_by(now_secs)),
        k,
    ) by {
        lemma_units_total_split(a, now_secs, k);
        lemma_units_total_nonneg(a.filter(live_at(now_secs)), k);
        assert(in_use(s.usage, k) == units_total(a, k));
    }
    lemma_usage_after_expiry(s.usage, a, now_secs);
    let t = after_cleanup(s, now_secs);
    assert forall|k: ResourceType| #[trigger] in_use(t.usage, k) == units_total(t.allocations, k) by {
        lemma_units_total_split(a, now_secs, k);
        assert(in_use(s.usage, k) == units_total(a, k));
    }
}


/// A request is granted exactly when the amount in use plus the amount asked
/// for stays within the limit of its kind (a request that brings the counter
/// exactly to its limit is granted) and its expiry fits in 64 bits; a request
/// beyond the limit is refused as `ResourceError` and changes nothing; a
/// grant adds the amount to the counter of its kind and leaves the others.
pub proof fn lemma_grant_within_limit(
    pre: ResourceState,
    req: RequestView,
    now_millis: nat,
    post: ResourceState,
    r: HalResult<AllocationResult>,
)
    requires
        allocation_outcome_at(pre, req, now_millis, post, r),
        grant_in_range(pre, req.resource_type, req.amount),
    ensures
        ({
            let u = pre.usage;
            let l = pre.limits;
            let within = match req.resource_type {
                ResourceType::Memory => u.memory_mb + req.amount <= l.max_memory_mb,
                ResourceType::CpuCores => u.cpu_cores + (req.amount as u32) <= l.max_cpu_cores,
                ResourceType::Storage => u.storage_mb + req.amount <= l.max_storage_mb,
                ResourceType::NetworkBandwidth => u.network_bandwidth_mbps + req.amount
                    <= l.max_network_bandwidth_mbps,
                ResourceType::GpuMemory => u.gpu_memory_mb + req.amount <= l.max_gpu_memory_mb,
            };
            let expiry_fits = match req.timeout_seconds {
                Some(t) => now_millis / 1000 + t <= u64::MAX,
                None => true,
            };
            &&& (within && expiry_fits) <==> r is Ok
            &&& !within ==> (r matches Err(HalError::ResourceError(_)) && post == pre)
            &&& r matches Ok(g) ==> g.granted_amount == req.amount
            &&& r is Ok ==> post.usage == match req.resource_type {
                ResourceType::Memory => ResourceUsage {
                    memory_mb: (u.memory_mb + req.amount) as u64,
                    ..u
                },
                ResourceType::CpuCores => ResourceUsage {
                    cpu_cores: (u.cpu_cores + (req.amount as u32)) as u32,
                    ..u
                },
                ResourceType::Storage => ResourceUsage {
                    storage_mb: (u.storage_mb + req.amount) as u64,
                    ..u
                },
                ResourceType::NetworkBandwidth => ResourceUsage {
                    network_bandwidth_mbps: (u.network_bandwidth_mbps + req.amount) as u64,
                    ..u
                },
                ResourceType::GpuMemory => ResourceUsage {
                    gpu_memory_mb: (u.gpu_memory_mb + req.amount) as u64,
                    ..u
                },
            }
        }),
{
}

/// The same law for a request without timeout served at whatever time the
/// clock gave (as `request_additional_memory` and the other `request_*`
/// functions make): granted exactly when it stays within the limit of its
/// kind, refused as `ResourceError` otherwise.
pub proof fn lemma_plain_request_within_limit(
    pre: ResourceState,
    req: RequestView,
    post: ResourceState,
    r: HalResult<AllocationResult>,
)
    requires
        allocation_outcome(pre, req, post, r),
        grant_in_range(pre, req.resource_type, req.amount),
        req.timeout_seconds is None,
    ensures
        ({
            let u = pre.usage;
            let l = pre.limits;
            let within = match req.resource_type {
                ResourceType::Memory => u.memory_mb + req.amount <= l.max_memory_mb,
                ResourceType::CpuCores => u.cpu_cores + (req.amount as u32) <= l.max_cpu_cores,
                ResourceType::Storage => u.storage_mb + req.amount <= l.max_storage_mb,
                ResourceType::NetworkBandwidth => u.network_bandwidth_mbps + req.amount
                    <= l.max_network_bandwidth_mbps,
                ResourceType::GpuMemory => u.gpu_memory_mb + req.amount <= l.max_gpu_memory_mb,
            };
            &&& within <==> r is Ok
            &&& !within ==> (r matches Err(HalError::ResourceError(_)) && post == pre)
        }),
{
    let now = choose|now_millis: nat|
        now_millis / 1000 <= u64::MAX && #[trigger] allocation_outcome_at(
            pre,
            req,
            now_millis,
            post,
            r,
        );
    lemma_grant_within_limit(pre, req, now, post, r);
}

proof fn lemma_first_total_kb_at(ls: Seq<Seq<char>>, i: int, kb: u64)
    requires
        0 <= i < ls.len(),
        "MemTotal:"@.is_prefix_of(ls[i]),
        tokens_of(ls[i]).len() > 1,
        parse_u64_spec(tokens_of(ls[i])[1]) == Some(kb),
        forall|j: int|
            0 <= j < i ==> !("MemTotal:"@.is_prefix_of(#[trigger] ls[j]) && tokens_of(ls[j]).len()
                > 1 && parse_u64_spec(tokens_of(ls[j])[1]) is Some),
    ensures
        first_total_kb(ls) == Some(kb),
    decreases i,
{
    if i > 0 {
        assert(!("MemTotal:"@.is_prefix_of(ls[0]) && tokens_of(ls[0]).len() > 1 && parse_u64_spec(
            tokens_of(ls[0])[1],
        ) is Some));
        let rest = ls.drop_first();
        assert forall|j: int|
            0 <= j < i - 1 implies !("MemTotal:"@.is_prefix_of(#[trigger] rest[j]) && tokens_of(
            rest[j],
        ).len() > 1 && parse_u64_spec(tokens_of(rest[j])[1]) is Some) by {
            assert(rest[j] == ls[j + 1]);
        }
        lemma_first_total_kb_at(rest, i - 1, kb);
    }
}

proof fn lemma_first_total_kb_none(ls: Seq<Seq<char>>)
    requires
        forall|j: int|
            0 <= j < ls.len() ==> !("MemTotal:"@.is_prefix_of(#[trigger] ls[j]) && tokens_of(
                ls[j],
            ).len() > 1 && parse_u64_spec(tokens_of(ls[j])[1]) is Some),
    ensures
        first_total_kb(ls) is None,
    decreases ls.len(),
{
    if ls.len() > 0 {
        assert(!("MemTotal:"@.is_prefix_of(ls[0]) && tokens_of(ls[0]).len() > 1 && parse_u64_spec(
            tokens_of(ls[0])[1],
        ) is Some));
        let rest = ls.drop_first();
        assert forall|j: int|
            0 <= j < rest.len() implies !("MemTotal:"@.is_prefix_of(#[trigger] rest[j]) && tokens_of(
            rest[j],
        ).len() > 1 && parse_u64_spec(tokens_of(rest[j])[1]) is Some) by {
            assert(rest[j] == ls[j + 1]);
        }
        lemma_first_total_kb_none(rest);
    }
}

/// The total memory read from a `/proc/meminfo` text is that of its first
/// line, the very first included, that starts with `MemTotal:` and whose
/// second word reads as a `u64` count of kB, divided by 1024; with no such
/// line there is none.
pub proof fn lemma_meminfo_total(meminfo: Seq<char>, i: int, kb: u64)
    requires
        0 <= i < lines_of(meminfo).len(),
        "MemTotal:"@.is_prefix_of(lines_of(meminfo)[i]),
        tokens_of(lines_of(meminfo)[i]).len() > 1,
        parse_u64_spec(tokens_of(lines_of(meminfo)[i])[1]) == Some(kb),
        forall|j: int|
            0 <= j < i ==> !("MemTotal:"@.is_prefix_of(#[trigger] lines_of(meminfo)[j]) && tokens_of(
                lines_of(meminfo)[j],
            ).len() > 1 && parse_u64_spec(tokens_of(lines_of(meminfo)[j])[1]) is Some),
    ensures
        meminfo_total_mb(meminfo) == Some((kb / 1024) as u64),
{
    lemma_first_total_kb_at(lines_of(meminfo), i, kb);
}

/// A `/proc/meminfo` text with no line that starts with `MemTotal:` and has
/// a second word that reads as a `u64` gives no total memory.
pub proof fn lemma_meminfo_total_absent(meminfo: Seq<char>)
    requires
        forall|j: int|
            0 <= j < lines_of(meminfo).len() ==> !("MemTotal:"@.is_prefix_of(
                #[trigger] lines_of(meminfo)[j],
            ) && tokens_of(lines_of(meminfo)[j]).len() > 1 && parse_u64_spec(
                tokens_of(lines_of(meminfo)[j])[1],
            ) is Some),
    ensures
        meminfo_total_mb(meminfo) is None,
{
    lemma_first_total_kb_none(lines_of(meminfo));
}

/// Listing by requester gives records whose requester equals the one asked
/// for, and every record whose requester equals it is among them.
pub proof fn lemma_requester_listing(a: Seq<AllocationView>, requester: Seq<char>)
    ensures
        forall|i: int|
            0 <= i < a.filter(requested_by(requester)).len() ==> (#[trigger] a.filter(
                requested_by(requester),
            )[i]).requester == requester,
        forall|j: int|
            0 <= j < a.len() && (#[trigger] a[j]).requester == requester ==> a.filter(
                requested_by(requester),
            ).contains(a[j]),
{
    let p = requested_by(requester);
    assert forall|i: int| 0 <= i < a.filter(p).len() implies (#[trigger] a.filter(p)[i]).requester
        == requester by {
        a.lemma_filter_pred(p, i);
    }
    assert forall|j: int| 0 <= j < a.len() && (#[trigger] a[j]).requester == requester implies a.filter(
        p,
    ).contains(a[j]) by {
        a.lemma_filter_contains(p, j);
    }
}

} // verus!
