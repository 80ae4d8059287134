//! Limits on how often callers may ask: one for all callers together, and one
//! for each tenant with a cap on how many tenants are tracked at a time.

use vstd::prelude::*;

use crate::text::{owned, same};

verus! {

/// Every so many requests the tenants that went idle are forgotten.
pub const TENANT_LIMITER_RETAIN_EVERY_REQUESTS: u64 = 64;

/// The nanoseconds after which a tenant is idle.
pub const IDLE_TENANT_RETENTION_NS: u64 = 1_000_000_000;

/// The requests in a second that a limit stands for.
pub open spec fn quota_of(limit_per_sec: u64) -> u32 {
    if limit_per_sec == 0 {
        1
    } else if limit_per_sec > u32::MAX {
        u32::MAX
    } else {
        limit_per_sec as u32
    }
}

/// The requests in a second that a limit stands for: at least one, and no more
/// than 32 bits hold.
pub fn quota_per_second(limit_per_sec: u64) -> (r: u32)
    ensures
        r == quota_of(limit_per_sec),
        r >= 1,
{
    if limit_per_sec == 0 {
        1
    } else if limit_per_sec > u32::MAX as u64 {
        u32::MAX
    } else {
        limit_per_sec as u32
    }
}

/// A `governor` rate limiter that all callers share.
#[verifier::external_body]
pub struct SharedLimiter {
    limiter: governor::DefaultDirectRateLimiter,
}

/// The requests in a second, and at once, that a shared limiter was made for.
pub uninterp spec fn shared_quota(l: SharedLimiter) -> u32;

/// `governor::RateLimiter::direct` on `governor::Quota::per_second`: a limiter
/// that was made for so many requests in a second, and as many at once.
#[verifier::external_body]
fn shared_limiter(per_second: u32) -> (r: SharedLimiter)
    requires
        per_second >= 1,
    ensures
        shared_quota(r) == per_second,
{
    let quota = governor::Quota::per_second(std::num::NonZeroU32::new(per_second).unwrap());
    SharedLimiter { limiter: governor::RateLimiter::direct(quota) }
}

/// `governor::RateLimiter::check` on a shared limiter. What it answers depends
/// on the time, so nothing is claimed of it.
#[verifier::external_body]
fn check_shared(l: &SharedLimiter) -> (r: bool) {
    l.limiter.check().is_ok()
}

/// A `governor` rate limiter that counts the requests of each key by itself.
#[verifier::external_body]
pub struct KeyedLimiter {
    limiter: governor::DefaultKeyedRateLimiter<String>,
}

/// The requests in a second, and at once, that a keyed limiter was made for.
pub uninterp spec fn keyed_quota(l: KeyedLimiter) -> u32;

/// `governor::RateLimiter::keyed` on `governor::Quota::per_second`: a limiter
/// that was made for so many requests of each key in a second, and as many at
/// once.
#[verifier::external_body]
fn keyed_limiter(per_second: u32) -> (r: KeyedLimiter)
    requires
        per_second >= 1,
    ensures
        keyed_quota(r) == per_second,
{
    let quota = governor::Quota::per_second(std::num::NonZeroU32::new(per_second).unwrap());
    KeyedLimiter { limiter: governor::RateLimiter::keyed(quota) }
}

/// `governor::RateLimiter::check_key` on a keyed limiter. What it answers
/// depends on the time, so nothing is claimed of it.
#[verifier::external_body]
fn check_keyed(l: &KeyedLimiter, key: &String) -> (r: bool) {
    l.limiter.check_key(key).is_ok()
}

/// `governor::RateLimiter::retain_recent`: the limiter may forget keys whose
/// state is that of a new key. Nothing is claimed of which.
#[verifier::external_body]
fn forget_fresh_keys(l: &KeyedLimiter) {
    l.limiter.retain_recent();
}

/// `governor::RateLimiter::shrink_to_fit`: the limiter may give memory back.
#[verifier::external_body]
fn shrink_keyed(l: &KeyedLimiter) {
    l.limiter.shrink_to_fit();
}

/// A limit on the requests of all callers together.
pub struct GlobalRateLimiter {
    limiter: SharedLimiter,
}

impl GlobalRateLimiter {
    /// The requests that are let through in a second.
    pub closed spec fn quota(&self) -> u32 {
        shared_quota(self.limiter)
    }

    /// A limiter for so many requests in a second.
    pub fn new(limit_per_sec: u64) -> (r: Self)
        ensures
            r.quota() == quota_of(limit_per_sec),
    {
        GlobalRateLimiter { limiter: shared_limiter(quota_per_second(limit_per_sec)) }
    }

    /// Whether one more request is let through now. The answer depends on the
    /// time and on the requests before this one.
    pub fn allow(&self) -> (r: bool) {
        check_shared(&self.limiter)
    }
}

/// A tenant and when it was seen last.
struct TenantSlot {
    id: String,
    last_seen_ns: u64,
}

/// The last time each tenant of some slots was seen.
spec fn seen_in(slots: Seq<TenantSlot>) -> Map<Seq<char>, u64>
    decreases slots.len(),
{
    if slots.len() == 0 {
        Map::empty()
    } else {
        seen_in(slots.drop_last()).insert(slots.last().id@, slots.last().last_seen_ns)
    }
}

/// No two slots are of one tenant.
spec fn distinct(slots: Seq<TenantSlot>) -> bool {
    forall|i: int, j: int|
        #![trigger slots[i], slots[j]]
        0 <= i < j < slots.len() ==> slots[i].id@ != slots[j].id@
}

/// Slots of distinct tenants are a map from tenants, of as many entries.
proof fn lemma_seen_in(slots: Seq<TenantSlot>)
    requires
        distinct(slots),
    ensures
        seen_in(slots).dom().finite(),
        seen_in(slots).dom().len() == slots.len(),
        forall|i: int|
            0 <= i < slots.len() ==> seen_in(slots).contains_key((#[trigger] slots[i]).id@)
                && seen_in(slots)[slots[i].id@] == slots[i].last_seen_ns,
        forall|k: Seq<char>|
            #[trigger] seen_in(slots).contains_key(k) ==> exists|i: int|
                0 <= i < slots.len() && (#[trigger] slots[i]).id@ == k,
    decreases slots.len(),
{
    if slots.len() > 0 {
        let rest = slots.drop_last();
        lemma_seen_in(rest);
        let m = seen_in(rest);
        assert(!m.contains_key(slots.last().id@)) by {
            if m.contains_key(slots.last().id@) {
                let i = choose|i: int| 0 <= i < rest.len() && (#[trigger] rest[i]).id@ == slots.last().id@;
                assert(rest[i] == slots[i]);
            }
        }
        assert forall|i: int| 0 <= i < slots.len() implies seen_in(slots).contains_key(
            (#[trigger] slots[i]).id@,
        ) && seen_in(slots)[slots[i].id@] == slots[i].last_seen_ns by {
            if i < rest.len() {
                assert(rest[i] == slots[i]);
            }
        }
        assert forall|k: Seq<char>| #[trigger] seen_in(slots).contains_key(k) implies exists|i: int|
            0 <= i < slots.len() && (#[trigger] slots[i]).id@ == k by {
            if k == slots.last().id@ {
                assert(slots[slots.len() - 1].id@ == k);
            } else {
                assert(m.contains_key(k));
                let i = choose|i: int| 0 <= i < rest.len() && (#[trigger] rest[i]).id@ == k;
                assert(slots[i].id@ == k);
            }
        }
    }
}

/// A tenant that was seen at one time is not idle at another.
pub open spec fn is_recent(now_ns: u64, last_seen_ns: u64) -> bool {
    now_ns - last_seen_ns < IDLE_TENANT_RETENTION_NS
}

/// The tenants that are not idle.
pub open spec fn recent_in(m: Map<Seq<char>, u64>, now_ns: u64) -> Map<Seq<char>, u64> {
    m.restrict(m.dom().filter(|k: Seq<char>| is_recent(now_ns, m[k])))
}

/// A tenant is let in: it is known, or there is room for one more.
pub open spec fn has_room(m: Map<Seq<char>, u64>, max_tenants: nat, id: Seq<char>) -> bool {
    m.contains_key(id) || m.dom().len() < max_tenants
}

/// The tenants once one asked to be let in.
pub open spec fn after_admission(
    m: Map<Seq<char>, u64>,
    max_tenants: nat,
    id: Seq<char>,
    now_ns: u64,
) -> Map<Seq<char>, u64> {
    if has_room(m, max_tenants, id) {
        m.insert(id, now_ns)
    } else {
        m
    }
}

/// The tenants once those that are idle were forgotten, where the count of the
/// requests says so.
pub open spec fn after_sweep(
    m: Map<Seq<char>, u64>,
    requests: u64,
    now_ns: u64,
) -> Map<Seq<char>, u64> {
    if requests % TENANT_LIMITER_RETAIN_EVERY_REQUESTS == 0 {
        recent_in(m, now_ns)
    } else {
        m
    }
}

/// The tenants that a request is held against: where it finds no room, those
/// that are not idle.
pub open spec fn before_request(
    m: Map<Seq<char>, u64>,
    max_tenants: nat,
    requests: u64,
    id: Seq<char>,
    now_ns: u64,
) -> Map<Seq<char>, u64> {
    let swept = after_sweep(m, requests, now_ns);
    if has_room(swept, max_tenants, id) {
        swept
    } else {
        recent_in(swept, now_ns)
    }
}

/// The tenants that are tracked, up to a cap.
pub struct TenantSlots {
    slots: Vec<TenantSlot>,
    max_tenants: usize,
}

impl View for TenantSlots {
    type V = Map<Seq<char>, u64>;

    closed spec fn view(&self) -> Map<Seq<char>, u64> {
        seen_in(self.slots@)
    }
}

impl TenantSlots {
    /// How many tenants are tracked at most.
    pub closed spec fn cap(&self) -> nat {
        self.max_tenants as nat
    }

    /// At most as many tenants as the cap says are tracked, each once.
    pub closed spec fn wf(&self) -> bool {
        &&& distinct(self.slots@)
        &&& self.slots@.len() <= self.max_tenants
        &&& self.max_tenants >= 1
    }

    /// What the slots keep: the cap holds.
    pub proof fn lemma_wf(&self)
        requires
            self.wf(),
        ensures
            self@.dom().finite(),
            self@.dom().len() <= self.cap(),
            self.cap() >= 1,
    {
        lemma_seen_in(self.slots@);
    }

    /// Room for so many tenants, and for one at least.
    pub fn new(max_tenants: usize) -> (r: Self)
        ensures
            r.wf(),
            r.cap() == if max_tenants == 0 { 1 } else { max_tenants as nat },
            r@ == Map::<Seq<char>, u64>::empty(),
    {
        let max_tenants: usize = if max_tenants == 0 { 1 } else { max_tenants };
        TenantSlots { slots: Vec::new(), max_tenants }
    }

    /// How many tenants are tracked.
    pub fn len(&self) -> (r: usize)
        requires
            self.wf(),
        ensures
            r == self@.dom().len(),
    {
        proof {
            lemma_seen_in(self.slots@);
        }
        self.slots.len()
    }

    /// Lets a tenant in where it is known or there is room, and notes when.
    pub fn admit_tenant(&mut self, tenant_id: &String, now_ns: u64) -> (r: bool)
        requires
            old(self).wf(),
        ensures
            final(self).wf(),
            final(self).cap() == old(self).cap(),
            r == has_room(old(self)@, old(self).cap(), tenant_id@),
            final(self)@ == after_admission(old(self)@, old(self).cap(), tenant_id@, now_ns),
    {
        let ghost before = self.slots@;
        proof {
            lemma_seen_in(before);
        }
        let mut i: usize = 0;
        while i < self.slots.len()
            invariant
                i <= self.slots@.len(),
                *self == *old(self),
                self.slots@ == before,
                self.wf(),
                self@.dom().len() == before.len(),
                forall|j: int|
                    0 <= j < before.len() ==> self@.contains_key((#[trigger] before[j]).id@)
                        && self@[before[j].id@] == before[j].last_seen_ns,
                forall|k: Seq<char>|
                    #[trigger] self@.contains_key(k) ==> exists|j: int|
                        0 <= j < before.len() && (#[trigger] before[j]).id@ == k,
                forall|j: int| 0 <= j < i ==> (#[trigger] before[j]).id@ != tenant_id@,
            decreases self.slots@.len() - i,
        {
            if same(self.slots[i].id.as_str(), tenant_id.as_str()) {
                let slot = TenantSlot { id: owned(tenant_id.as_str()), last_seen_ns: now_ns };
                self.slots.set(i, slot);
                proof {
                    let after = self.slots@;
                    assert(after =~= before.update(i as int, slot));
                    assert forall|a: int, b: int|
                        #![trigger after[a], after[b]]
                        0 <= a < b < after.len() implies after[a].id@ != after[b].id@ by {
                        assert(before[a].id@ != before[b].id@);
                    }
                    lemma_seen_in(after);
                    assert(seen_in(after) =~= seen_in(before).insert(tenant_id@, now_ns)) by {
                        lemma_same_entries(before, after, i as int, tenant_id@, now_ns);
                    }
                }
                return true;
            }
            i += 1;
        }
        if self.slots.len() >= self.max_tenants {
            return false;
        }
        self.slots.push(TenantSlot { id: owned(tenant_id.as_str()), last_seen_ns: now_ns });
        proof {
            let after = self.slots@;
            assert(after.drop_last() =~= before);
            assert forall|a: int, b: int|
                #![trigger after[a], after[b]]
                0 <= a < b < after.len() implies after[a].id@ != after[b].id@ by {
                assert(before[a] == after[a]);
                if b < before.len() {
                    assert(before[b] == after[b]);
                }
            }
        }
        true
    }

    /// Forgets the tenants that are idle.
    pub fn retain_recent(&mut self, now_ns: u64)
        requires
            old(self).wf(),
        ensures
            final(self).wf(),
            final(self).cap() == old(self).cap(),
            final(self)@ == recent_in(old(self)@, now_ns),
    {
        let ghost before = self.slots@;
        let mut kept: Vec<TenantSlot> = Vec::new();
        let mut i: usize = 0;
        assert(before.take(0) =~= Seq::<TenantSlot>::empty());
        while i < self.slots.len()
            invariant
                i <= self.slots@.len(),
                *self == *old(self),
                self.slots@ == before,
                distinct(before),
                kept@.len() <= i,
                distinct(kept@),
                forall|j: int| 0 <= j < kept@.len() ==> (exists|a: int|
                    0 <= a < i && (#[trigger] before[a]).id@ == (#[trigger] kept@[j]).id@
                        && before[a].last_seen_ns == kept@[j].last_seen_ns)
                    && is_recent(now_ns, kept@[j].last_seen_ns),
                forall|a: int|
                    0 <= a < i && is_recent(now_ns, (#[trigger] before[a]).last_seen_ns) ==> (exists|
                        j: int,
                    |
                        0 <= j < kept@.len() && (#[trigger] kept@[j]).id@ == before[a].id@),
            decreases self.slots@.len() - i,
        {
            let last_seen_ns: u64 = self.slots[i].last_seen_ns;
            if now_ns < last_seen_ns || now_ns - last_seen_ns < IDLE_TENANT_RETENTION_NS {
                let ghost was = kept@;
                kept.push(TenantSlot { id: owned(self.slots[i].id.as_str()), last_seen_ns });
                proof {
                    assert forall|a: int, b: int|
                        #![trigger kept@[a], kept@[b]]
                        0 <= a < b < kept@.len() implies kept@[a].id@ != kept@[b].id@ by {
                        assert(was[a] == kept@[a]);
                        if b < was.len() {
                            assert(was[b] == kept@[b]);
                        }
                    }
                    assert(before[i as int].id@ == kept@[was.len() as int].id@);
                    assert forall|j: int| 0 <= j < kept@.len() implies (exists|a: int|
                        0 <= a < i + 1 && (#[trigger] before[a]).id@ == (#[trigger] kept@[j]).id@
                            && before[a].last_seen_ns == kept@[j].last_seen_ns) && is_recent(
                        now_ns,
                        kept@[j].last_seen_ns,
                    ) by {
                        if j < was.len() {
                            assert(was[j] == kept@[j]);
                        }
                    }
                    assert forall|a: int|
                        0 <= a < i + 1 && is_recent(
                            now_ns,
                            (#[trigger] before[a]).last_seen_ns,
                        ) implies exists|j: int|
                        0 <= j < kept@.len() && (#[trigger] kept@[j]).id@ == before[a].id@ by {
                        if a < i {
                            let j = choose|j: int|
                                0 <= j < was.len() && (#[trigger] was[j]).id@ == before[a].id@;
                            assert(kept@[j] == was[j]);
                        }
                    }
                }
            }
            i += 1;
        }
        proof {
            lemma_seen_in(before);
            lemma_seen_in(kept@);
            let m = seen_in(before);
            let k = seen_in(kept@);
            assert forall|id: Seq<char>| k.contains_key(id) <==> #[trigger] recent_in(
                m,
                now_ns,
            ).contains_key(id) by {
                if k.contains_key(id) {
                    let j = choose|j: int| 0 <= j < kept@.len() && (#[trigger] kept@[j]).id@ == id;
                    assert(is_recent(now_ns, kept@[j].last_seen_ns));
                }
                if recent_in(m, now_ns).contains_key(id) {
                    let a = choose|a: int| 0 <= a < before.len() && (#[trigger] before[a]).id@ == id;
                    assert(is_recent(now_ns, before[a].last_seen_ns));
                    let j = choose|j: int|
                        0 <= j < kept@.len() && (#[trigger] kept@[j]).id@ == before[a].id@;
                    assert(k.contains_key(kept@[j].id@));
                }
            }
            assert forall|id: Seq<char>| #[trigger] k.contains_key(id) implies k[id] == m[id] by {
                let j = choose|j: int| 0 <= j < kept@.len() && (#[trigger] kept@[j]).id@ == id;
                assert(is_recent(now_ns, kept@[j].last_seen_ns));
            }
            assert(k =~= recent_in(m, now_ns));
        }
        self.slots = kept;
    }
}

/// One slot noted anew is one entry of the map noted anew.
proof fn lemma_same_entries(
    before: Seq<TenantSlot>,
    after: Seq<TenantSlot>,
    at: int,
    id: Seq<char>,
    now_ns: u64,
)
    requires
        distinct(before),
        distinct(after),
        0 <= at < before.len(),
        after.len() == before.len(),
        before[at].id@ == id,
        after[at].id@ == id,
        after[at].last_seen_ns == now_ns,
        forall|i: int| 0 <= i < before.len() && i != at ==> #[trigger] after[i] == before[i],
    ensures
        seen_in(after) == seen_in(before).insert(id, now_ns),
{
    lemma_seen_in(before);
    lemma_seen_in(after);
    let want = seen_in(before).insert(id, now_ns);
    assert forall|k: Seq<char>| #[trigger] seen_in(after).contains_key(k) <==> want.contains_key(
        k,
    ) by {
        if seen_in(after).contains_key(k) {
            let i = choose|i: int| 0 <= i < after.len() && (#[trigger] after[i]).id@ == k;
            assert(before[i].id@ == k);
        }
        if want.contains_key(k) && k != id {
            let i = choose|i: int| 0 <= i < before.len() && (#[trigger] before[i]).id@ == k;
            assert(after[i].id@ == k);
        }
    }
    assert forall|k: Seq<char>| #[trigger] seen_in(after).contains_key(k) implies seen_in(after)[k]
        == want[k] by {
        let i = choose|i: int| 0 <= i < after.len() && (#[trigger] after[i]).id@ == k;
        assert(before[i].id@ == k);
    }
    assert(seen_in(after) =~= want);
}

/// A limit on the requests of each tenant.
pub struct TenantRateLimiter {
    limiter: KeyedLimiter,
    slots: TenantSlots,
    requests: u64,
}

impl TenantRateLimiter {
    /// The requests of a tenant that are let through in a second.
    pub closed spec fn quota(&self) -> u32 {
        keyed_quota(self.limiter)
    }

    /// The tenants that are tracked, and when each was seen last.
    pub closed spec fn tenants(&self) -> Map<Seq<char>, u64> {
        self.slots@
    }

    /// How many tenants are tracked at most.
    pub closed spec fn cap(&self) -> nat {
        self.slots.cap()
    }

    /// How many requests there were, modulo two to the 64.
    pub closed spec fn requests(&self) -> u64 {
        self.requests
    }

    /// The cap on the tenants holds.
    pub closed spec fn wf(&self) -> bool {
        self.slots.wf()
    }

    /// There are never more tenants than the cap says, and there is room for
    /// one at least.
    pub proof fn tenants_stay_under_the_cap(&self)
        requires
            self.wf(),
        ensures
            self.tenants().dom().finite(),
            self.tenants().dom().len() <= self.cap(),
            self.cap() >= 1,
    {
        self.slots.lemma_wf();
    }

    /// A limiter for so many requests of each tenant in a second, and for so
    /// many tenants at a time.
    pub fn new(limit_per_sec: u64, max_tenants: usize) -> (r: Self)
        ensures
            r.wf(),
            r.quota() == quota_of(limit_per_sec),
            r.cap() == if max_tenants == 0 { 1 } else { max_tenants as nat },
            r.tenants() == Map::<Seq<char>, u64>::empty(),
            r.requests() == 0,
    {
        TenantRateLimiter {
            limiter: keyed_limiter(quota_per_second(limit_per_sec)),
            slots: TenantSlots::new(max_tenants),
            requests: 0,
        }
    }

    /// Whether one more request of a tenant is let through at a time. A tenant
    /// for whom there is no room is not; of the others, the limiter decides by
    /// the time and the requests before this one.
    pub fn allow(&mut self, tenant_id: &String, now_ns: u64) -> (r: bool)
        requires
            old(self).wf(),
        ensures
            final(self).wf(),
            final(self).quota() == old(self).quota(),
            final(self).cap() == old(self).cap(),
            final(self).requests() == (old(self).requests() + 1) % 0x1_0000_0000_0000_0000,
            ({
                let held = before_request(
                    old(self).tenants(),
                    old(self).cap(),
                    old(self).requests(),
                    tenant_id@,
                    now_ns,
                );
                &&& final(self).tenants() == after_admission(
                    held,
                    old(self).cap(),
                    tenant_id@,
                    now_ns,
                )
                &&& r ==> has_room(held, old(self).cap(), tenant_id@)
            }),
    {
        let requests: u64 = self.requests;
        self.requests = requests.wrapping_add(1);
        if requests % TENANT_LIMITER_RETAIN_EVERY_REQUESTS == 0 {
            self.retain_recent(now_ns);
        }
        if !self.slots.admit_tenant(tenant_id, now_ns) {
            self.retain_recent(now_ns);
            if !self.slots.admit_tenant(tenant_id, now_ns) {
                return false;
            }
        }
        check_keyed(&self.limiter, tenant_id)
    }

    /// Forgets the tenants that are idle.
    pub fn retain_recent(&mut self, now_ns: u64)
        requires
            old(self).wf(),
        ensures
            final(self).wf(),
            final(self).quota() == old(self).quota(),
            final(self).cap() == old(self).cap(),
            final(self).requests() == old(self).requests(),
            final(self).tenants() == recent_in(old(self).tenants(), now_ns),
    {
        forget_fresh_keys(&self.limiter);
        shrink_keyed(&self.limiter);
        self.slots.retain_recent(now_ns);
    }

    /// How many tenants are tracked.
    pub fn tracked_tenants(&self) -> (r: usize)
        requires
            self.wf(),
        ensures
            r == self.tenants().dom().len(),
    {
        self.slots.len()
    }
}

/// A tenant that asked a moment ago still has its place, whoever else asks.
pub proof fn recent_tenants_keep_their_place(
    m: Map<Seq<char>, u64>,
    max_tenants: nat,
    requests: u64,
    id: Seq<char>,
    other: Seq<char>,
    now_ns: u64,
)
    requires
        m.contains_key(id),
        is_recent(now_ns, m[id]),
    ensures
        after_admission(
            before_request(m, max_tenants, requests, other, now_ns),
            max_tenants,
            other,
            now_ns,
        ).contains_key(id),
{
}

/// Once every tenant is idle, the next one to ask finds room.
pub proof fn idle_tenants_make_room(
    m: Map<Seq<char>, u64>,
    max_tenants: nat,
    requests: u64,
    id: Seq<char>,
    now_ns: u64,
)
    requires
        max_tenants >= 1,
        forall|k: Seq<char>| m.contains_key(k) ==> !is_recent(now_ns, #[trigger] m[k]),
    ensures
        has_room(before_request(m, max_tenants, requests, id, now_ns), max_tenants, id),
{
    let swept = after_sweep(m, requests, now_ns);
    if !has_room(swept, max_tenants, id) {
        assert(recent_in(swept, now_ns).dom() =~= Set::<Seq<char>>::empty());
    }
}

/// A rate is kept as it was asked for where it can be, and is at least one.
pub proof fn rates_are_kept_within_bounds(limit_per_sec: u64)
    ensures
        quota_of(limit_per_sec) >= 1,
        1 <= limit_per_sec <= u32::MAX ==> quota_of(limit_per_sec) == limit_per_sec,
        limit_per_sec > u32::MAX ==> quota_of(limit_per_sec) == u32::MAX,
        limit_per_sec == 0 ==> quota_of(limit_per_sec) == 1,
{
}

/// A sweep comes with every sixty-fourth request; in it a tenant keeps its place
/// exactly if it was last seen less than a second ago.
pub proof fn sweeps_take_the_idle_only(
    m: Map<Seq<char>, u64>,
    requests: u64,
    now_ns: u64,
    id: Seq<char>,
)
    ensures
        ({
            let after = after_sweep(m, requests, now_ns);
            let sweeps = requests % 64 == 0;
            &&& after.contains_key(id) <==> m.contains_key(id) && (!sweeps || now_ns - m[id]
                < 1_000_000_000)
            &&& after.contains_key(id) ==> after[id] == m[id]
        }),
{
}

/// A tenant is admitted exactly if it has a place or one is free; then it was
/// seen just now, and nothing else changes.
pub proof fn tenants_are_admitted_while_there_is_room(
    m: Map<Seq<char>, u64>,
    max_tenants: nat,
    id: Seq<char>,
    now_ns: u64,
    other: Seq<char>,
)
    requires
        m.dom().finite(),
        m.dom().len() <= max_tenants,
    ensures
        ({
            let after = after_admission(m, max_tenants, id, now_ns);
            &&& after.contains_key(id) <==> m.contains_key(id) || m.dom().len() < max_tenants
            &&& after.contains_key(id) ==> after[id] == now_ns
            &&& other != id ==> (after.contains_key(other) <==> m.contains_key(other)) && (
            m.contains_key(other) ==> after[other] == m[other])
            &&& after.dom().len() <= max_tenants
        }),
{
}

} // verus!
