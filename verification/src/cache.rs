//! The cache store: a mapping from a hook's behavioral identity (trigger and
//! command text) to a cached output with an optional expiry instant, plus the
//! trigger-dependent policy that decides when the cache applies.

use vstd::prelude::*;

use crate::hooks::{Hook, HookTrigger, hook_key, opt_str_view};

verus! {

/// A cached hook output. `expiry == None` means the entry stays valid for the
/// remaining life of the engine instance; `expiry == Some(t)` means valid at
/// any wall-clock millisecond strictly before `t`.
#[derive(Debug)]
pub struct CachedHook {
    /// The (already truncated) output that was captured.
    pub output: String,
    /// Wall-clock expiry in milliseconds, or `None` for "valid forever".
    pub expiry: Option<u64>,
}

impl Clone for CachedHook {
    /// A clone carries the same output and expiry.
    fn clone(&self) -> (c: CachedHook)
        ensures
            c == *self,
    {
        CachedHook { output: self.output.clone(), expiry: self.expiry }
    }
}

/// The mathematical content of a cache entry: the output text and the expiry.
pub open spec fn entry_model(c: CachedHook) -> (Seq<char>, Option<u64>) {
    (c.output@, c.expiry)
}

/// How one hook interacts with the cache, computed from its trigger and
/// `cache_ttl_seconds` alone.
#[derive(Clone, Copy, Debug, PartialEq, Eq, Structural)]
pub enum CachePolicy {
    /// The cache is bypassed entirely: no read, no write.
    NoCache,
    /// The entry is stored without an expiry: run once per engine instance.
    CacheForever,
    /// The entry is stored with the given wall-clock expiry in milliseconds.
    CacheUntil(u64),
}

/// The wall-clock millisecond at which an entry stored at `now_ms` with a
/// lifetime of `ttl_seconds` expires, saturating at the largest instant.
pub open spec fn spec_expiry_time(now_ms: u64, ttl_seconds: u64) -> u64 {
    if now_ms + ttl_seconds * 1000 > u64::MAX {
        u64::MAX
    } else {
        (now_ms + ttl_seconds * 1000) as u64
    }
}

/// The trigger-dependent interpretation of a single TTL field:
/// conversation-start hooks default (ttl 0) to "cache for the whole session",
/// per-prompt hooks default to "never cache".
pub open spec fn spec_effective_policy(
    trigger: HookTrigger,
    ttl_seconds: u64,
    now_ms: u64,
) -> CachePolicy {
    match trigger {
        HookTrigger::ConversationStart => if ttl_seconds == 0 {
            CachePolicy::CacheForever
        } else {
            CachePolicy::CacheUntil(spec_expiry_time(now_ms, ttl_seconds))
        },
        HookTrigger::PerPrompt => if ttl_seconds == 0 {
            CachePolicy::NoCache
        } else {
            CachePolicy::CacheUntil(spec_expiry_time(now_ms, ttl_seconds))
        },
    }
}

/// Whether the cache is consulted at all for a hook; unlike the policy itself
/// this does not depend on the clock.
pub open spec fn spec_cache_applies(trigger: HookTrigger, ttl_seconds: u64) -> bool {
    trigger == HookTrigger::ConversationStart || ttl_seconds > 0
}

/// The cache applies exactly when the effective policy is not `NoCache`,
/// whatever the clock says.
pub proof fn lemma_cache_applies_iff_policy(trigger: HookTrigger, ttl_seconds: u64, now_ms: u64)
    ensures
        spec_cache_applies(trigger, ttl_seconds) <==> spec_effective_policy(
            trigger,
            ttl_seconds,
            now_ms,
        ) != CachePolicy::NoCache,
{
}

/// Executable form of `spec_expiry_time`.
pub fn expiry_time(now_ms: u64, ttl_seconds: u64) -> (t: u64)
    ensures
        t == spec_expiry_time(now_ms, ttl_seconds),
{
    match ttl_seconds.checked_mul(1000) {
        Some(ms) => now_ms.saturating_add(ms),
        None => u64::MAX,
    }
}

/// Executable form of `spec_effective_policy`.
pub fn effective_policy(trigger: HookTrigger, ttl_seconds: u64, now_ms: u64) -> (p: CachePolicy)
    ensures
        p == spec_effective_policy(trigger, ttl_seconds, now_ms),
{
    match trigger {
        HookTrigger::ConversationStart => if ttl_seconds == 0 {
            CachePolicy::CacheForever
        } else {
            CachePolicy::CacheUntil(expiry_time(now_ms, ttl_seconds))
        },
        HookTrigger::PerPrompt => if ttl_seconds == 0 {
            CachePolicy::NoCache
        } else {
            CachePolicy::CacheUntil(expiry_time(now_ms, ttl_seconds))
        },
    }
}

/// What a lookup at wall-clock `now_ms` yields from a cache with contents `m`:
/// the stored output if the key is present and not expired, nothing otherwise.
/// An expired entry is indistinguishable from an absent one.
pub open spec fn spec_lookup(
    m: Map<(HookTrigger, Option<Seq<char>>), (Seq<char>, Option<u64>)>,
    k: (HookTrigger, Option<Seq<char>>),
    now_ms: u64,
) -> Option<Seq<char>> {
    if m.contains_key(k) {
        match m[k].1 {
            None => Some(m[k].0),
            Some(t) => if now_ms < t {
                Some(m[k].0)
            } else {
                None
            },
        }
    } else {
        None
    }
}

/// One stored entry, keyed by the behavioral identity of the hook that
/// produced it.
struct CacheSlot {
    trigger: HookTrigger,
    command: Option<String>,
    value: CachedHook,
}

/// The behavioral identity under which a slot is stored.
spec fn slot_key(s: CacheSlot) -> (HookTrigger, Option<Seq<char>>) {
    (s.trigger, opt_str_view(s.command))
}

/// The map described by a sequence of slots; a later slot with the same key
/// overrides an earlier one (the store keeps keys unique, so this never
/// actually happens).
spec fn slots_map(s: Seq<CacheSlot>) -> Map<
    (HookTrigger, Option<Seq<char>>),
    (Seq<char>, Option<u64>),
>
    decreases s.len(),
{
    if s.len() == 0 {
        Map::empty()
    } else {
        slots_map(s.drop_last()).insert(slot_key(s.last()), entry_model(s.last().value))
    }
}

/// Keys in a slot sequence are pairwise distinct.
spec fn unique_keys(s: Seq<CacheSlot>) -> bool {
    forall|i: int, j: int| 0 <= i < j < s.len() ==> slot_key(s[i]) != slot_key(s[j])
}

proof fn lemma_slots_map_contains(s: Seq<CacheSlot>, k: (HookTrigger, Option<Seq<char>>))
    ensures
        slots_map(s).contains_key(k) <==> exists|i: int| 0 <= i < s.len() && slot_key(s[i]) == k,
    decreases s.len(),
{
    if s.len() > 0 {
        lemma_slots_map_contains(s.drop_last(), k);
        if slot_key(s.last()) == k {
            assert(slot_key(s[s.len() - 1]) == k);
        } else {
            if slots_map(s).contains_key(k) {
                let i = choose|i: int| 0 <= i < s.drop_last().len() && slot_key(
                    s.drop_last()[i],
                ) == k;
                assert(slot_key(s[i]) == k);
            }
            if exists|i: int| 0 <= i < s.len() && slot_key(s[i]) == k {
                let i = choose|i: int| 0 <= i < s.len() && slot_key(s[i]) == k;
                assert(i < s.len() - 1);
                assert(slot_key(s.drop_last()[i]) == k);
            }
        }
    }
}

proof fn lemma_slots_map_index(s: Seq<CacheSlot>, i: int)
    requires
        unique_keys(s),
        0 <= i < s.len(),
    ensures
        slots_map(s).contains_key(slot_key(s[i])),
        slots_map(s)[slot_key(s[i])] == entry_model(s[i].value),
    decreases s.len(),
{
    if i == s.len() - 1 {
    } else {
        assert(unique_keys(s.drop_last()));
        assert(s.drop_last()[i] == s[i]);
        lemma_slots_map_index(s.drop_last(), i);
        assert(slot_key(s[s.len() - 1]) != slot_key(s[i]));
    }
}

proof fn lemma_slots_map_update(s: Seq<CacheSlot>, i: int, x: CacheSlot)
    requires
        unique_keys(s),
        0 <= i < s.len(),
        slot_key(x) == slot_key(s[i]),
    ensures
        slots_map(s.update(i, x)) == slots_map(s).insert(slot_key(x), entry_model(x.value)),
    decreases s.len(),
{
    let k = slot_key(x);
    if i == s.len() - 1 {
        assert(s.update(i, x).drop_last() =~= s.drop_last());
        assert(s.update(i, x).last() == x);
        assert(slots_map(s.drop_last()).insert(k, entry_model(s[i].value)).insert(
            k,
            entry_model(x.value),
        ) =~= slots_map(s.drop_last()).insert(k, entry_model(x.value)));
    } else {
        assert(unique_keys(s.drop_last()));
        assert(s.drop_last()[i] == s[i]);
        lemma_slots_map_update(s.drop_last(), i, x);
        assert(s.update(i, x).drop_last() =~= s.drop_last().update(i, x));
        assert(s.update(i, x).last() == s.last());
        let lk = slot_key(s.last());
        assert(lk != k);
        assert(slots_map(s.drop_last()).insert(k, entry_model(x.value)).insert(
            lk,
            entry_model(s.last().value),
        ) =~= slots_map(s.drop_last()).insert(lk, entry_model(s.last().value)).insert(
            k,
            entry_model(x.value),
        ));
    }
}

/// Compares two optional command texts by content.
pub(crate) fn opt_str_eq(a: &Option<String>, b: &Option<String>) -> (r: bool)
    ensures
        r == (opt_str_view(*a) == opt_str_view(*b)),
{
    match (a, b) {
        (None, None) => true,
        (Some(x), Some(y)) => *x == *y,
        _ => false,
    }
}

/// The cache store: entries inserted after a run of a cacheable hook, read
/// (and lazily expiry-checked) on every lookup, owned by one engine instance.
pub struct CacheStore {
    slots: Vec<CacheSlot>,
}

impl View for CacheStore {
    type V = Map<(HookTrigger, Option<Seq<char>>), (Seq<char>, Option<u64>)>;

    /// A store is seen as the map from behavioral identities to entry models.
    closed spec fn view(&self) -> Map<(HookTrigger, Option<Seq<char>>), (Seq<char>, Option<u64>)> {
        slots_map(self.slots@)
    }
}

impl CacheStore {
    /// Internal well-formedness: one slot per behavioral identity.
    pub closed spec fn wf(&self) -> bool {
        unique_keys(self.slots@)
    }

    /// Creates an empty store.
    pub fn new() -> (s: CacheStore)
        ensures
            s.wf(),
            s@ == Map::<(HookTrigger, Option<Seq<char>>), (Seq<char>, Option<u64>)>::empty(),
    {
        CacheStore { slots: Vec::new() }
    }

    /// Returns the cached output for `hook` if one is present and not expired
    /// at wall-clock `now_ms`; an expired or absent entry yields nothing.
    pub fn get_at(&self, hook: &Hook, now_ms: u64) -> (r: Option<String>)
        requires
            self.wf(),
        ensures
            match r {
                Some(s) => spec_lookup(self@, hook_key(*hook), now_ms) == Some(s@),
                None => spec_lookup(self@, hook_key(*hook), now_ms) is None,
            },
    {
        let mut i: usize = 0;
        while i < self.slots.len()
            invariant
                self.wf(),
                i <= self.slots@.len(),
                forall|j: int| 0 <= j < i ==> slot_key(self.slots@[j]) != hook_key(*hook),
            decreases self.slots@.len() - i,
        {
            let slot = &self.slots[i];
            if slot.trigger == hook.trigger && opt_str_eq(&slot.command, &hook.command) {
                proof {
                    lemma_slots_map_index(self.slots@, i as int);
                }
                match &slot.value.expiry {
                    None => {
                        return Some(slot.value.output.clone());
                    },
                    Some(t) => {
                        if now_ms < *t {
                            return Some(slot.value.output.clone());
                        } else {
                            return None;
                        }
                    },
                }
            }
            i += 1;
        }
        proof {
            lemma_slots_map_contains(self.slots@, hook_key(*hook));
        }
        None
    }

    /// Inserts or overwrites the entry for `hook`'s behavioral identity.
    pub fn put(&mut self, hook: &Hook, value: CachedHook)
        requires
            old(self).wf(),
        ensures
            final(self).wf(),
            final(self)@ == old(self)@.insert(hook_key(*hook), entry_model(value)),
    {
        let mut i: usize = 0;
        while i < self.slots.len()
            invariant
                self.wf(),
                i <= self.slots@.len(),
                *self == *old(self),
                forall|j: int| 0 <= j < i ==> slot_key(self.slots@[j]) != hook_key(*hook),
            decreases self.slots@.len() - i,
        {
            let found = {
                let slot = &self.slots[i];
                slot.trigger == hook.trigger && opt_str_eq(&slot.command, &hook.command)
            };
            if found {
                let ghost old_slots = self.slots@;
                let slot = &mut self.slots[i];
                slot.value = value;
                proof {
                    assert(slot_key(self.slots@[i as int]) == hook_key(*hook));
                    lemma_slots_map_update(old_slots, i as int, self.slots@[i as int]);
                    assert(forall|j: int|
                        0 <= j < self.slots@.len() ==> slot_key(self.slots@[j]) == slot_key(
                            old_slots[j],
                        ));
                }
                return ;
            }
            i += 1;
        }
        let ghost old_slots = self.slots@;
        self.slots.push(
            CacheSlot {
                trigger: hook.trigger,
                command: match &hook.command {
                    Some(c) => Some(c.clone()),
                    None => None,
                },
                value,
            },
        );
        proof {
            assert(self.slots@.drop_last() =~= old_slots);
            assert(slot_key(self.slots@.last()) == hook_key(*hook));
        }
    }
}


/// Law: a per-prompt hook with the default TTL bypasses the cache entirely,
/// whatever the clock says — every call re-executes the command.
pub proof fn lemma_per_prompt_default_no_cache(now_ms: u64)
    ensures
        spec_effective_policy(
            HookTrigger::PerPrompt,
            crate::hooks::DEFAULT_CACHE_TTL_SECONDS,
            now_ms,
        ) == CachePolicy::NoCache,
{
}

/// Law: a conversation-start hook with the default TTL is cached without an
/// expiry — it runs once for the life of the engine instance, even though the
/// TTL was never explicitly set.
pub proof fn lemma_conversation_start_default_cache(now_ms: u64)
    ensures
        spec_effective_policy(
            HookTrigger::ConversationStart,
            crate::hooks::DEFAULT_CACHE_TTL_SECONDS,
            now_ms,
        ) == CachePolicy::CacheForever,
{
}

/// Law: what a lookup yields right after a store. An entry stored without an
/// expiry is always returned; one stored with an expiry is returned at any
/// instant strictly before it and is gone — indistinguishable from absent —
/// from the expiry instant on.
pub proof fn lemma_store_then_lookup(
    m: Map<(HookTrigger, Option<Seq<char>>), (Seq<char>, Option<u64>)>,
    k: (HookTrigger, Option<Seq<char>>),
    out: Seq<char>,
    expiry: Option<u64>,
    now_ms: u64,
)
    ensures
        spec_lookup(m.insert(k, (out, expiry)), k, now_ms) == match expiry {
            None => Some(out),
            Some(t) => if now_ms < t {
                Some(out)
            } else {
                None::<Seq<char>>
            },
        },
{
}

/// Law: a store under one behavioral identity never disturbs a lookup under
/// another.
pub proof fn lemma_store_frame(
    m: Map<(HookTrigger, Option<Seq<char>>), (Seq<char>, Option<u64>)>,
    k1: (HookTrigger, Option<Seq<char>>),
    k2: (HookTrigger, Option<Seq<char>>),
    entry: (Seq<char>, Option<u64>),
    now_ms: u64,
)
    requires
        k1 != k2,
    ensures
        spec_lookup(m.insert(k1, entry), k2, now_ms) == spec_lookup(m, k2, now_ms),
{
}

} // verus!
