//! The execution engine: orchestrates cache lookups, subprocess dispatch with
//! per-hook timeouts, output truncation, and order-preserving result assembly,
//! writing the output of freshly executed hooks to a progress sink.

use vstd::prelude::*;
use vstd::string::*;

use crate::cache::{
    CachePolicy, CacheStore, CachedHook, effective_policy, entry_model, spec_cache_applies,
    spec_effective_policy, spec_lookup,
};
use crate::hooks::{Hook, HookTrigger, hook_key};

verus! {

/// The fixed marker appended when a hook's output exceeds its size cap.
pub open spec fn spec_truncation_suffix() -> Seq<char> {
    " ... truncated"@
}

/// Output of length at most `max` is kept whole; longer output is cut to
/// exactly `max` characters and the fixed marker is appended.
pub open spec fn spec_truncated(s: Seq<char>, max: nat) -> Seq<char> {
    if s.len() <= max {
        s
    } else {
        s.subrange(0, max as int) + spec_truncation_suffix()
    }
}

/// Truncated output never exceeds the cap plus the marker, whose length
/// is 14 characters.
pub proof fn lemma_truncated_len_bound(s: Seq<char>, max: nat)
    ensures
        spec_truncation_suffix().len() == 14,
        spec_truncated(s, max).len() <= max + spec_truncation_suffix().len(),
{
    reveal_strlit(" ... truncated");
}

/// Executable form of `spec_truncated`.
pub fn truncate_output(s: &str, max_output_size: usize) -> (r: String)
    ensures
        r@ == spec_truncated(s@, max_output_size as nat),
{
    let len = s.unicode_len();
    if len <= max_output_size {
        s.to_owned()
    } else {
        let mut r = s.substring_char(0, max_output_size).to_owned();
        r.append(" ... truncated");
        r
    }
}

/// Whether a hook interacts with the cache at all.
pub open spec fn hook_cache_applies(h: Hook) -> bool {
    spec_cache_applies(h.trigger, h.cache_ttl_seconds)
}

/// No hook among the first `n` of `hooks` both runs and caches under key `k`.
pub open spec fn no_writer_upto(
    hooks: Seq<Hook>,
    k: (HookTrigger, Option<Seq<char>>),
    n: int,
) -> bool {
    forall|j: int|
        0 <= j < n && !(#[trigger] hooks[j]).disabled && hook_cache_applies(hooks[j])
            ==> hook_key(hooks[j]) != k
}

/// The entry of `cache` under `k` was written by one of the first `n` hooks:
/// a non-disabled hook with that key whose policy caches, and the stored
/// output respects that hook's truncation cap.
pub open spec fn written_by_upto(
    hooks: Seq<Hook>,
    cache: Map<(HookTrigger, Option<Seq<char>>), (Seq<char>, Option<u64>)>,
    k: (HookTrigger, Option<Seq<char>>),
    n: int,
) -> bool {
    exists|j: int|
        0 <= j < n && hook_key(#[trigger] hooks[j]) == k && !hooks[j].disabled
            && hook_cache_applies(hooks[j]) && cache[k].0.len() <= hooks[j].max_output_size
            + spec_truncation_suffix().len()
}

/// How the cache may evolve over the first `n` hooks of a call: entries are
/// never removed, keys that none of those hooks writes keep their state, and
/// every new or changed entry was written, truncated, by one of them.
pub open spec fn cache_evolution_ok(
    hooks: Seq<Hook>,
    cache0: Map<(HookTrigger, Option<Seq<char>>), (Seq<char>, Option<u64>)>,
    cache: Map<(HookTrigger, Option<Seq<char>>), (Seq<char>, Option<u64>)>,
    n: int,
) -> bool {
    &&& forall|k: (HookTrigger, Option<Seq<char>>)|
        #![trigger cache0.dom().contains(k)]
        #![trigger cache.dom().contains(k)]
        cache0.contains_key(k) ==> cache.contains_key(k)
    &&& forall|k: (HookTrigger, Option<Seq<char>>)|
        #[trigger] no_writer_upto(hooks, k, n) ==> (cache.contains_key(k) == cache0.contains_key(
            k,
        ) && (cache0.contains_key(k) ==> cache[k] == cache0[k]))
    &&& forall|k: (HookTrigger, Option<Seq<char>>)|
        #![trigger cache.dom().contains(k)]
        cache.contains_key(k) && !(cache0.contains_key(k) && cache0[k] == cache[k])
            ==> written_by_upto(hooks, cache, k, n)
}

/// What one call of the engine may do to the cache for one hook: every other
/// key is untouched; a cache-bypassing policy touches nothing; the entry
/// under the hook's own key is never removed, and is either unchanged or
/// freshly written within the hook's truncation cap.
pub open spec fn run_one_cache_ok(
    hook: Hook,
    pre: Map<(HookTrigger, Option<Seq<char>>), (Seq<char>, Option<u64>)>,
    post: Map<(HookTrigger, Option<Seq<char>>), (Seq<char>, Option<u64>)>,
) -> bool {
    &&& forall|k: (HookTrigger, Option<Seq<char>>)|
        #![trigger pre.dom().contains(k)]
        #![trigger post.dom().contains(k)]
        #![trigger pre[k]]
        #![trigger post[k]]
        k != hook_key(hook) ==> (post.contains_key(k) == pre.contains_key(k) && (pre.contains_key(
            k,
        ) ==> post[k] == pre[k]))
    &&& !hook_cache_applies(hook) ==> post == pre
    &&& pre.contains_key(hook_key(hook)) ==> post.contains_key(hook_key(hook))
    &&& post.contains_key(hook_key(hook)) ==> ((pre.contains_key(hook_key(hook)) && post[hook_key(
        hook,
    )] == pre[hook_key(hook)]) || (hook_cache_applies(hook) && post[hook_key(hook)].0.len()
        <= hook.max_output_size + spec_truncation_suffix().len()))
}

/// What one hook's returned text can be: freshly truncated to the hook's own
/// cap, or served verbatim from the cache as it stood at the hook's turn.
pub open spec fn run_one_text_ok(
    hook: Hook,
    pre: Map<(HookTrigger, Option<Seq<char>>), (Seq<char>, Option<u64>)>,
    r: Option<String>,
) -> bool {
    match r {
        Some(out) => out@.len() <= hook.max_output_size + spec_truncation_suffix().len() || (
        pre.contains_key(hook_key(hook)) && out@ == pre[hook_key(hook)].0),
        None => true,
    }
}

/// The expiry an entry is stored with under each caching policy.
pub open spec fn policy_expiry(p: CachePolicy) -> Option<u64> {
    match p {
        CachePolicy::CacheForever => None,
        CachePolicy::CacheUntil(t) => Some(t),
        CachePolicy::NoCache => None,
    }
}

/// Exactly what one hook's turn did, tying the returned text, the cache and
/// the sink together. Nothing at all happens on a timeout or spawn failure.
/// A cache hit returns the stored text, valid at some reading of the clock,
/// and changes nothing. A fresh run appends the raw output to the sink,
/// returns its truncation, and — when the policy caches — stores exactly
/// that truncation under the policy's expiry for some reading of the clock.
pub open spec fn run_one_outcome_ok(
    hook: Hook,
    pre: Map<(HookTrigger, Option<Seq<char>>), (Seq<char>, Option<u64>)>,
    post: Map<(HookTrigger, Option<Seq<char>>), (Seq<char>, Option<u64>)>,
    sink0: Seq<char>,
    sink1: Seq<char>,
    r: Option<String>,
) -> bool {
    let k = hook_key(hook);
    match r {
        None => post == pre && sink1 == sink0,
        Some(out) => {
            ||| (hook_cache_applies(hook) && post == pre && sink1 == sink0 && exists|now: u64|
                spec_lookup(pre, k, now) == Some(out@))
            ||| exists|raw: Seq<char>, now: u64|
                #![trigger spec_truncated(raw, hook.max_output_size as nat), spec_effective_policy(hook.trigger, hook.cache_ttl_seconds, now)]
                out@ == spec_truncated(raw, hook.max_output_size as nat) && sink1 == sink0 + raw
                    && post == if hook_cache_applies(hook) {
                    pre.insert(
                        k,
                        (
                            out@,
                            policy_expiry(
                                spec_effective_policy(hook.trigger, hook.cache_ttl_seconds, now),
                            ),
                        ),
                    )
                } else {
                    pre
                }
        },
    }
}

/// Every non-disabled hook of the batch has a cache entry that never
/// expires: the whole call can be answered without running anything.
pub open spec fn all_served_from_cache(
    hooks: Seq<Hook>,
    cache0: Map<(HookTrigger, Option<Seq<char>>), (Seq<char>, Option<u64>)>,
) -> bool {
    forall|j: int|
        0 <= j < hooks.len() && !(#[trigger] hooks[j]).disabled ==> (hook_cache_applies(hooks[j])
            && cache0.contains_key(hook_key(hooks[j])) && cache0[hook_key(hooks[j])].1 is None)
}

/// Entries cached for the session (no expiry) persist unchanged through a
/// cache evolution: no hook ever overwrites one, because any eligible writer
/// of its key is served from it instead.
pub open spec fn session_entries_persist(
    cache0: Map<(HookTrigger, Option<Seq<char>>), (Seq<char>, Option<u64>)>,
    cache: Map<(HookTrigger, Option<Seq<char>>), (Seq<char>, Option<u64>)>,
) -> bool {
    forall|k: (HookTrigger, Option<Seq<char>>)|
        #![trigger cache0.dom().contains(k)]
        #![trigger cache.dom().contains(k)]
        cache0.contains_key(k) && cache0[k].1 is None ==> cache.contains_key(k) && cache[k]
            == cache0[k]
}

/// Hook `j` is non-disabled, its policy caches, and `cache0` holds a
/// session-long entry under its key: it can be answered without running.
pub open spec fn covered_by_session_cache(
    hooks: Seq<Hook>,
    cache0: Map<(HookTrigger, Option<Seq<char>>), (Seq<char>, Option<u64>)>,
    j: int,
) -> bool {
    &&& !hooks[j].disabled
    &&& hook_cache_applies(hooks[j])
    &&& cache0.contains_key(hook_key(hooks[j]))
    &&& cache0[hook_key(hooks[j])].1 is None
}

/// Some result answers hook `j` with the text `cache0` holds under its key.
pub open spec fn answered_from_cache(
    hooks: Seq<Hook>,
    cache0: Map<(HookTrigger, Option<Seq<char>>), (Seq<char>, Option<u64>)>,
    results: Seq<(Hook, String)>,
    j: int,
) -> bool {
    exists|t: int|
        0 <= t < results.len() && (#[trigger] results[t]).0 == hooks[j] && results[t].1@
            == cache0[hook_key(hooks[j])].0
}

/// One step of session-entry persistence: what one hook's turn may do to the
/// cache, together with its guarantee to serve from a session-long entry,
/// keeps every such entry in place.
proof fn lemma_session_persist_step(
    hook: Hook,
    cache0: Map<(HookTrigger, Option<Seq<char>>), (Seq<char>, Option<u64>)>,
    pre: Map<(HookTrigger, Option<Seq<char>>), (Seq<char>, Option<u64>)>,
    post: Map<(HookTrigger, Option<Seq<char>>), (Seq<char>, Option<u64>)>,
)
    requires
        session_entries_persist(cache0, pre),
        run_one_cache_ok(hook, pre, post),
        (hook_cache_applies(hook) && pre.contains_key(hook_key(hook)) && pre[hook_key(
            hook,
        )].1 is None) ==> post == pre,
    ensures
        session_entries_persist(cache0, post),
{
    assert forall|k: (HookTrigger, Option<Seq<char>>)|
        cache0.contains_key(k) && cache0[k].1 is None implies post.contains_key(k) && post[k]
        == cache0[k] by {
        assert(pre.contains_key(k) && pre[k] == cache0[k]);
        if k == hook_key(hook) {
            if !hook_cache_applies(hook) {
                assert(post == pre);
            } else {
                assert(post == pre);
            }
        }
    }
}

/// Where one returned text can come from, relative to the cache contents
/// `cache0` at the start of the whole call: a fresh run of hook `j` itself
/// (truncated to its own cap), the entry `cache0` already held, or an entry
/// written earlier in the same call by a hook sharing the key (truncated to
/// that writer's cap).
pub open spec fn result_text_ok(
    hooks: Seq<Hook>,
    cache0: Map<(HookTrigger, Option<Seq<char>>), (Seq<char>, Option<u64>)>,
    text: Seq<char>,
    j: int,
) -> bool {
    ||| text.len() <= hooks[j].max_output_size + spec_truncation_suffix().len()
    ||| (cache0.contains_key(hook_key(hooks[j])) && text == cache0[hook_key(hooks[j])].0)
    ||| exists|w: int|
        0 <= w < j && hook_key(#[trigger] hooks[w]) == hook_key(hooks[j]) && !hooks[w].disabled
            && hook_cache_applies(hooks[w]) && text.len() <= hooks[w].max_output_size
            + spec_truncation_suffix().len()
}

/// `results` is an order-preserving selection of the non-disabled input
/// hooks: `m` maps each result to the input position it answers, in strictly
/// increasing order, and each text has a sanctioned origin.
pub open spec fn selection_core(
    hooks: Seq<Hook>,
    cache0: Map<(HookTrigger, Option<Seq<char>>), (Seq<char>, Option<u64>)>,
    results: Seq<(Hook, String)>,
    m: Seq<int>,
) -> bool {
    &&& m.len() == results.len()
    &&& forall|i: int, j: int| 0 <= i < j < m.len() ==> m[i] < m[j]
    &&& forall|i: int|
        0 <= i < m.len() ==> 0 <= m[i] && m[i] < hooks.len() && (#[trigger] results[i]).0 == hooks[
        m[i]] && !hooks[m[i]].disabled && result_text_ok(hooks, cache0, results[i].1@, m[i])
}

/// `selection_core`, with every answered position among the first `n`.
pub open spec fn selection_upto(
    hooks: Seq<Hook>,
    cache0: Map<(HookTrigger, Option<Seq<char>>), (Seq<char>, Option<u64>)>,
    results: Seq<(Hook, String)>,
    m: Seq<int>,
    n: int,
) -> bool {
    &&& selection_core(hooks, cache0, results, m)
    &&& forall|i: int| 0 <= i < m.len() ==> #[trigger] m[i] < n
}

/// The returned list answers the whole input in order: see `selection_upto`.
pub open spec fn run_selection_ok(
    hooks: Seq<Hook>,
    cache0: Map<(HookTrigger, Option<Seq<char>>), (Seq<char>, Option<u64>)>,
    results: Seq<(Hook, String)>,
    m: Seq<int>,
) -> bool {
    selection_upto(hooks, cache0, results, m, hooks.len() as int)
}

/// A selection of the first `n` hooks is one of the first `n2 >= n` as well.
proof fn lemma_selection_extend(
    hooks: Seq<Hook>,
    cache0: Map<(HookTrigger, Option<Seq<char>>), (Seq<char>, Option<u64>)>,
    results: Seq<(Hook, String)>,
    m: Seq<int>,
    n: int,
    n2: int,
)
    requires
        selection_upto(hooks, cache0, results, m, n),
        n <= n2,
    ensures
        selection_upto(hooks, cache0, results, m, n2),
{
}

/// Appending the result of hook `n` to a selection of the first `n` hooks
/// yields a selection of the first `n + 1`.
proof fn lemma_selection_push(
    hooks: Seq<Hook>,
    cache0: Map<(HookTrigger, Option<Seq<char>>), (Seq<char>, Option<u64>)>,
    results: Seq<(Hook, String)>,
    m: Seq<int>,
    n: int,
    hook: Hook,
    out: String,
)
    requires
        selection_upto(hooks, cache0, results, m, n),
        0 <= n < hooks.len(),
        hook == hooks[n],
        !hooks[n].disabled,
        result_text_ok(hooks, cache0, out@, n),
    ensures
        selection_upto(hooks, cache0, results.push((hook, out)), m.push(n), n + 1),
{
    let results2 = results.push((hook, out));
    let m2 = m.push(n);
    assert forall|i: int|
        0 <= i < m2.len() implies 0 <= m2[i] && m2[i] < hooks.len() && (#[trigger] results2[i]).0
        == hooks[m2[i]] && !hooks[m2[i]].disabled && result_text_ok(
        hooks,
        cache0,
        results2[i].1@,
        m2[i],
    ) by {
        if i < m.len() {
            assert(results2[i] == results[i]);
            assert(m2[i] == m[i]);
        } else {
            assert(results2[i] == (hook, out));
            assert(m2[i] == n);
        }
    }
    assert forall|i: int| 0 <= i < m2.len() implies 0 <= #[trigger] m2[i] by {
        if i < m.len() {
            assert(results2[i] == results[i]);
            assert(m2[i] == m[i]);
        } else {
            assert(m2[i] == n);
        }
    }
    assert(selection_core(hooks, cache0, results2, m2));
    assert(selection_upto(hooks, cache0, results2, m2, n + 1));
}

/// A cache evolution over the first `n` hooks is one over the first
/// `n2 >= n` as well.
proof fn lemma_evolution_extend(
    hooks: Seq<Hook>,
    cache0: Map<(HookTrigger, Option<Seq<char>>), (Seq<char>, Option<u64>)>,
    cache: Map<(HookTrigger, Option<Seq<char>>), (Seq<char>, Option<u64>)>,
    n: int,
    n2: int,
)
    requires
        cache_evolution_ok(hooks, cache0, cache, n),
        0 <= n <= n2,
    ensures
        cache_evolution_ok(hooks, cache0, cache, n2),
{
    assert forall|k: (HookTrigger, Option<Seq<char>>)|
        #[trigger] no_writer_upto(hooks, k, n2) implies (cache.contains_key(k)
        == cache0.contains_key(k) && (cache0.contains_key(k) ==> cache[k] == cache0[k])) by {
        assert(no_writer_upto(hooks, k, n));
    }
    assert forall|k: (HookTrigger, Option<Seq<char>>)|
        cache.contains_key(k) && !(cache0.contains_key(k) && cache0[k] == cache[k]) implies
        written_by_upto(hooks, cache, k, n2) by {
        assert(written_by_upto(hooks, cache, k, n));
        let j = choose|j: int|
            0 <= j < n && hook_key(#[trigger] hooks[j]) == k && !hooks[j].disabled
                && hook_cache_applies(hooks[j]) && cache[k].0.len() <= hooks[j].max_output_size
                + spec_truncation_suffix().len();
        assert(0 <= j < n2 && hook_key(hooks[j]) == k && !hooks[j].disabled && hook_cache_applies(
            hooks[j],
        ) && cache[k].0.len() <= hooks[j].max_output_size + spec_truncation_suffix().len());
    }
}

/// One step of the cache evolution: what hook `i` may do per
/// `run_one_cache_ok` keeps the whole-call evolution invariant.
proof fn lemma_evolution_step(
    hooks: Seq<Hook>,
    cache0: Map<(HookTrigger, Option<Seq<char>>), (Seq<char>, Option<u64>)>,
    pre: Map<(HookTrigger, Option<Seq<char>>), (Seq<char>, Option<u64>)>,
    post: Map<(HookTrigger, Option<Seq<char>>), (Seq<char>, Option<u64>)>,
    i: int,
)
    requires
        0 <= i < hooks.len(),
        !hooks[i].disabled,
        cache_evolution_ok(hooks, cache0, pre, i),
        run_one_cache_ok(hooks[i], pre, post),
    ensures
        cache_evolution_ok(hooks, cache0, post, i + 1),
{
    let hk = hook_key(hooks[i]);
    assert forall|k: (HookTrigger, Option<Seq<char>>)|
        cache0.contains_key(k) implies post.contains_key(k) by {
        assert(pre.contains_key(k));
        if k != hk {
            assert(post.contains_key(k));
        }
    }
    assert forall|k: (HookTrigger, Option<Seq<char>>)|
        #[trigger] no_writer_upto(hooks, k, i + 1) implies (post.contains_key(k)
        == cache0.contains_key(k) && (cache0.contains_key(k) ==> post[k] == cache0[k])) by {
        assert(no_writer_upto(hooks, k, i));
        assert(pre.contains_key(k) == cache0.contains_key(k));
        assert(cache0.contains_key(k) ==> pre[k] == cache0[k]);
        if hook_cache_applies(hooks[i]) {
            assert(hook_key(hooks[i]) != k);
            assert(post.contains_key(k) == pre.contains_key(k));
            assert(pre.contains_key(k) ==> post[k] == pre[k]);
        } else {
            assert(post == pre);
        }
    }
    assert forall|k: (HookTrigger, Option<Seq<char>>)|
        post.contains_key(k) && !(cache0.contains_key(k) && cache0[k] == post[k]) implies
        written_by_upto(hooks, post, k, i + 1) by {
        if k == hk {
            if pre.contains_key(k) && post[k] == pre[k] {
                assert(pre.contains_key(k) && !(cache0.contains_key(k) && cache0[k] == pre[k]));
                assert(written_by_upto(hooks, pre, k, i));
                let j = choose|j: int|
                    0 <= j < i && hook_key(#[trigger] hooks[j]) == k && !hooks[j].disabled
                        && hook_cache_applies(hooks[j]) && pre[k].0.len()
                        <= hooks[j].max_output_size + spec_truncation_suffix().len();
                assert(0 <= j < i + 1 && hook_key(hooks[j]) == k && !hooks[j].disabled
                    && hook_cache_applies(hooks[j]) && post[k].0.len() <= hooks[j].max_output_size
                    + spec_truncation_suffix().len());
            } else {
                assert(hook_cache_applies(hooks[i]) && post[k].0.len()
                    <= hooks[i].max_output_size + spec_truncation_suffix().len());
                assert(0 <= i < i + 1 && hook_key(hooks[i]) == k && !hooks[i].disabled
                    && hook_cache_applies(hooks[i]) && post[k].0.len() <= hooks[i].max_output_size
                    + spec_truncation_suffix().len());
            }
        } else {
            assert(post.contains_key(k) == pre.contains_key(k));
            assert(pre.contains_key(k) ==> post[k] == pre[k]);
            assert(written_by_upto(hooks, pre, k, i));
            let j = choose|j: int|
                0 <= j < i && hook_key(#[trigger] hooks[j]) == k && !hooks[j].disabled
                    && hook_cache_applies(hooks[j]) && pre[k].0.len() <= hooks[j].max_output_size
                    + spec_truncation_suffix().len();
            assert(0 <= j < i + 1 && hook_key(hooks[j]) == k && !hooks[j].disabled
                && hook_cache_applies(hooks[j]) && post[k].0.len() <= hooks[j].max_output_size
                + spec_truncation_suffix().len());
        }
    }
}

/// What `run_one` says of a returned text implies a sanctioned whole-call
/// origin for it.
proof fn lemma_text_origin(
    hooks: Seq<Hook>,
    cache0: Map<(HookTrigger, Option<Seq<char>>), (Seq<char>, Option<u64>)>,
    pre: Map<(HookTrigger, Option<Seq<char>>), (Seq<char>, Option<u64>)>,
    out: String,
    i: int,
)
    requires
        0 <= i < hooks.len(),
        !hooks[i].disabled,
        cache_evolution_ok(hooks, cache0, pre, i),
        run_one_text_ok(hooks[i], pre, Some(out)),
    ensures
        result_text_ok(hooks, cache0, out@, i),
{
    let k = hook_key(hooks[i]);
    if !(out@.len() <= hooks[i].max_output_size + spec_truncation_suffix().len()) {
        assert(pre.contains_key(k) && out@ == pre[k].0);
        if cache0.contains_key(k) && cache0[k] == pre[k] {
            assert(result_text_ok(hooks, cache0, out@, i));
        } else {
            assert(written_by_upto(hooks, pre, k, i));
            let j = choose|j: int|
                0 <= j < i && hook_key(#[trigger] hooks[j]) == k && !hooks[j].disabled
                    && hook_cache_applies(hooks[j]) && pre[k].0.len() <= hooks[j].max_output_size
                    + spec_truncation_suffix().len();
            assert(0 <= j < i && hook_key(hooks[j]) == hook_key(hooks[i]) && !hooks[j].disabled
                && hook_cache_applies(hooks[j]) && out@.len() <= hooks[j].max_output_size
                + spec_truncation_suffix().len());
        }
    }
}

/// A prefix of a prefix is a prefix.
proof fn lemma_prefix_transitive(a: Seq<char>, b: Seq<char>, c: Seq<char>)
    requires
        a.is_prefix_of(b),
        b.is_prefix_of(c),
    ensures
        a.is_prefix_of(c),
{
    assert(a =~= c.subrange(0, a.len() as int));
}

/// Relies on `std::time::SystemTime::now`: reads the wall clock, in
/// milliseconds since the Unix epoch (or 0 if the clock is set before it).
#[verifier::external_body]
fn now_millis() -> u64 {
    match std::time::SystemTime::now().duration_since(std::time::UNIX_EPOCH) {
        Ok(d) => d.as_millis() as u64,
        Err(_) => 0,
    }
}

/// Relies on `tokio::process::Command` and `tokio::time::timeout`: runs
/// `command` under `bash -c`, waits at most `timeout_ms` milliseconds, and
/// returns the captured standard output whatever the exit status; on a
/// timeout the child is killed and on a timeout or spawn failure the call
/// yields `None`. Must not run on a thread that is driving asynchronous
/// tasks, where `Runtime::block_on` aborts; `execute_shell_command` is the
/// entry that dispatches safely.
#[verifier::external_body]
fn execute_shell_blocking(command: &str, timeout_ms: u64) -> Option<String> {
    let rt = match tokio::runtime::Builder::new_current_thread().enable_all().build() {
        Ok(rt) => rt,
        Err(_) => return None,
    };
    let guard = rt.enter();
    let mut cmd = tokio::process::Command::new("bash");
    cmd.arg("-c").arg(command).kill_on_drop(true);
    let fut = tokio::time::timeout(std::time::Duration::from_millis(timeout_ms), cmd.output());
    drop(guard);
    match rt.block_on(fut) {
        Ok(Ok(out)) => Some(String::from_utf8_lossy(&out.stdout).into_owned()),
        _ => None,
    }
}

/// Relies on `tokio::runtime::Handle::try_current`, `Handle::runtime_flavor`
/// and `tokio::task::block_in_place` to keep `execute_shell_blocking` off any
/// thread that is driving asynchronous tasks. Outside every runtime the run
/// happens directly; on a multi-thread runtime the worker is marked blocking
/// first, which tokio permits wherever such a runtime is current; on a
/// current-thread runtime no blocking is possible, so the hook is dropped
/// like a spawn failure.
#[verifier::external_body]
fn execute_shell_command(command: &str, timeout_ms: u64) -> Option<String> {
    match tokio::runtime::Handle::try_current() {
        Err(_) => execute_shell_blocking(command, timeout_ms),
        Ok(handle) => match handle.runtime_flavor() {
            tokio::runtime::RuntimeFlavor::MultiThread => tokio::task::block_in_place(|| {
                execute_shell_blocking(command, timeout_ms)
            }),
            _ => None,
        },
    }
}

/// The hook execution engine. It owns the cache store exclusively; cache
/// state lives and dies with the engine instance.
pub struct HookExecutor {
    cache: CacheStore,
}

impl View for HookExecutor {
    type V = Map<(HookTrigger, Option<Seq<char>>), (Seq<char>, Option<u64>)>;

    /// An engine is seen as the contents of its cache.
    closed spec fn view(&self) -> Map<(HookTrigger, Option<Seq<char>>), (Seq<char>, Option<u64>)> {
        self.cache@
    }
}

impl HookExecutor {
    /// Internal well-formedness of the cache store.
    pub closed spec fn wf(&self) -> bool {
        self.cache.wf()
    }

    /// Creates an engine with an empty cache.
    pub fn new() -> (e: HookExecutor)
        ensures
            e.wf(),
            e@ == Map::<(HookTrigger, Option<Seq<char>>), (Seq<char>, Option<u64>)>::empty(),
    {
        HookExecutor { cache: CacheStore::new() }
    }

    /// Inserts or overwrites the cache entry for `hook`'s behavioral identity.
    pub fn insert_cache(&mut self, hook: &Hook, cached: CachedHook)
        requires
            old(self).wf(),
        ensures
            final(self).wf(),
            final(self)@ == old(self)@.insert(hook_key(*hook), entry_model(cached)),
    {
        self.cache.put(hook, cached);
    }

    /// Returns the cached output for `hook` if one is present and not expired
    /// at wall-clock `now_ms`.
    pub fn get_cache_at(&self, hook: &Hook, now_ms: u64) -> (r: Option<String>)
        requires
            self.wf(),
        ensures
            match r {
                Some(s) => spec_lookup(self@, hook_key(*hook), now_ms) == Some(s@),
                None => spec_lookup(self@, hook_key(*hook), now_ms) is None,
            },
    {
        self.cache.get_at(hook, now_ms)
    }

    /// Like `get_cache_at` for the wall clock as of now. An entry without an
    /// expiry is always returned; one with an expiry may or may not have
    /// lapsed, so a present entry can still yield `None`.
    pub fn get_cache(&self, hook: &Hook) -> (r: Option<String>)
        requires
            self.wf(),
        ensures
            match r {
                Some(s) => self@.contains_key(hook_key(*hook)) && self@[hook_key(*hook)].0 == s@,
                None => self@.contains_key(hook_key(*hook)) ==> self@[hook_key(*hook)].1 is Some,
            },
    {
        let now = now_millis();
        self.get_cache_at(hook, now)
    }



    /// Processes one non-disabled hook: serves a valid cache entry if the
    /// policy applies, otherwise runs the command under its timeout, appends
    /// the raw output to `sink`, truncates it, and caches it when the policy
    /// says to. Returns the hook's output, or `None` when the command timed
    /// out or could not be spawned.
    pub fn run_one(&mut self, hook: &Hook, sink: &mut String) -> (r: Option<String>)
        requires
            old(self).wf(),
            !hook.disabled,
        ensures
            final(self).wf(),
            // what the returned text can be
            run_one_text_ok(*hook, old(self)@, r),
            // what may happen to the cache
            run_one_cache_ok(*hook, old(self)@, final(self)@),
            // exactly how the text, the cache and the sink relate
            run_one_outcome_ok(*hook, old(self)@, final(self)@, old(sink)@, final(sink)@, r),
            // the sink only grows
            old(sink)@.is_prefix_of(final(sink)@),
            // a hook that caches forever is served from its cache entry, with
            // no run, no cache write and no sink write
            (hook_cache_applies(*hook) && old(self)@.contains_key(hook_key(*hook)) && old(
                self,
            )@[hook_key(*hook)].1 is None) ==> (final(self)@ == old(self)@ && final(sink)@ == old(
                sink,
            )@ && match r {
                Some(out) => out@ == old(self)@[hook_key(*hook)].0,
                None => false,
            }),
    {
        let now = now_millis();
        let policy = effective_policy(hook.trigger, hook.cache_ttl_seconds, now);
        let use_cache = match policy {
            CachePolicy::NoCache => false,
            _ => true,
        };
        proof {
            crate::cache::lemma_cache_applies_iff_policy(hook.trigger, hook.cache_ttl_seconds, now);
        }
        let served = if use_cache {
            self.get_cache_at(hook, now)
        } else {
            None
        };
        if let Some(out) = served {
            proof {
                assert(spec_lookup(self@, hook_key(*hook), now) == Some(out@));
            }
            return Some(out);
        }
        let cmd_str: &str = match &hook.command {
            Some(c) => c.as_str(),
            None => "",
        };
        match execute_shell_command(cmd_str, hook.timeout_ms) {
            Some(raw) => {
                sink.append(raw.as_str());
                let out = truncate_output(raw.as_str(), hook.max_output_size);
                proof {
                    lemma_truncated_len_bound(raw@, hook.max_output_size as nat);
                }
                if use_cache {
                    let expiry = match policy {
                        CachePolicy::CacheUntil(t) => Some(t),
                        _ => None,
                    };
                    proof {
                        assert(expiry == policy_expiry(
                            crate::cache::spec_effective_policy(
                                hook.trigger,
                                hook.cache_ttl_seconds,
                                now,
                            ),
                        ));
                    }
                    self.insert_cache(hook, CachedHook { output: out.clone(), expiry });
                }
                proof {
                    assert(out@ == spec_truncated(raw@, hook.max_output_size as nat));
                    assert(spec_effective_policy(hook.trigger, hook.cache_ttl_seconds, now)
                        == policy);
                }
                Some(out)
            },
            None => None,
        }
    }

    /// Runs every non-disabled hook of `hooks` in order, serving valid cache
    /// entries without spawning anything, and returns `(hook, output)` pairs
    /// in input order. A hook that times out or fails to spawn is dropped
    /// from the result rather than reported; a disabled hook is skipped
    /// entirely, touching neither the cache nor the sink. The raw output of
    /// each freshly executed hook is appended to `sink`. Fresh outputs are
    /// truncated to the hook's cap before they are returned or cached.
    pub fn run_hooks(&mut self, hooks: &Vec<Hook>, sink: &mut String) -> (results: Vec<
        (Hook, String),
    >)
        requires
            old(self).wf(),
        ensures
            final(self).wf(),
            // order preservation, provenance, disabled exclusion, text origin
            exists|m: Seq<int>| run_selection_ok(hooks@, old(self)@, results@, m),
            // entries never removed, frame for unwritten keys, every change
            // written truncated by an eligible hook
            cache_evolution_ok(hooks@, old(self)@, final(self)@, hooks@.len() as int),
            // the progress sink only ever grows
            old(sink)@.is_prefix_of(final(sink)@),
            // a batch of disabled hooks leaves no trace at all
            (forall|j: int| 0 <= j < hooks@.len() ==> (#[trigger] hooks@[j]).disabled) ==> (
            results@.len() == 0 && final(self)@ == old(self)@ && final(sink)@ == old(sink)@),
            // a batch whose every hook is cached for the session runs
            // nothing: the cache and the sink stay as they were, and every
            // non-disabled hook is answered with its cached output
            all_served_from_cache(hooks@, old(self)@) ==> (final(self)@ == old(self)@
                && final(sink)@ == old(sink)@ && (forall|j: int|
                0 <= j < hooks@.len() && !(#[trigger] hooks@[j]).disabled ==> exists|t: int|
                    0 <= t < results@.len() && (#[trigger] results@[t]).0 == hooks@[j]
                        && results@[t].1@ == old(self)@[hook_key(hooks@[j])].0)),
            // entries cached for the session survive the whole call unchanged
            session_entries_persist(old(self)@, final(self)@),
            // and answer every hook they cover, even in a mixed batch
            forall|j: int|
                0 <= j < hooks@.len() && #[trigger] covered_by_session_cache(
                    hooks@,
                    old(self)@,
                    j,
                ) ==> answered_from_cache(hooks@, old(self)@, results@, j),
    {
        let mut results: Vec<(Hook, String)> = Vec::new();
        let ghost mut m: Seq<int> = Seq::empty();
        let mut i: usize = 0;
        while i < hooks.len()
            invariant
                self.wf(),
                i <= hooks@.len(),
                selection_upto(hooks@, old(self)@, results@, m, i as int),
                cache_evolution_ok(hooks@, old(self)@, self@, i as int),
                old(sink)@.is_prefix_of(sink@),
                (forall|j: int| 0 <= j < i ==> (#[trigger] hooks@[j]).disabled) ==> (results@.len()
                    == 0 && self@ == old(self)@ && sink@ == old(sink)@),
                all_served_from_cache(hooks@, old(self)@) ==> (self@ == old(self)@
                    && sink@ == old(sink)@ && (forall|j: int|
                    0 <= j < i && !(#[trigger] hooks@[j]).disabled ==> exists|t: int|
                        0 <= t < results@.len() && (#[trigger] results@[t]).0 == hooks@[j]
                            && results@[t].1@ == old(self)@[hook_key(hooks@[j])].0)),
                session_entries_persist(old(self)@, self@),
                forall|j: int|
                    0 <= j < i && #[trigger] covered_by_session_cache(hooks@, old(self)@, j)
                        ==> answered_from_cache(hooks@, old(self)@, results@, j),
            decreases hooks@.len() - i,
        {
            let hook = &hooks[i];
            if !hook.disabled {
                let ghost pre_cache = self@;
                let ghost pre_sink = sink@;
                let served = self.run_one(hook, sink);
                proof {
                    lemma_prefix_transitive(old(sink)@, pre_sink, sink@);
                    lemma_evolution_step(hooks@, old(self)@, pre_cache, self@, i as int);
                    lemma_session_persist_step(hooks@[i as int], old(self)@, pre_cache, self@);
                }
                match served {
                    Some(out) => {
                        proof {
                            lemma_text_origin(hooks@, old(self)@, pre_cache, out, i as int);
                            lemma_selection_push(
                                hooks@,
                                old(self)@,
                                results@,
                                m,
                                i as int,
                                hooks@[i as int],
                                out,
                            );
                            m = m.push(i as int);
                        }
                        let ghost pre_results = results@;
                        results.push((hook.clone(), out));
                        proof {
                            assert forall|j: int|
                                0 <= j < i as int + 1 && #[trigger] covered_by_session_cache(
                                    hooks@,
                                    old(self)@,
                                    j,
                                ) implies answered_from_cache(hooks@, old(self)@, results@, j) by {
                                if j == i as int {
                                    let k = hook_key(hooks@[i as int]);
                                    assert(pre_cache.contains_key(k) && pre_cache[k] == old(
                                        self,
                                    )@[k]);
                                    assert(out@ == pre_cache[k].0);
                                    let t = pre_results.len() as int;
                                    assert(0 <= t < results@.len() && results@[t].0 == hooks@[j]
                                        && results@[t].1@ == old(self)@[hook_key(hooks@[j])].0);
                                } else {
                                    let t = choose|t: int|
                                        0 <= t < pre_results.len() && (#[trigger] pre_results[t]).0
                                            == hooks@[j] && pre_results[t].1@ == old(self)@[
                                        hook_key(hooks@[j])].0;
                                    assert(results@[t] == pre_results[t]);
                                    assert(results@[t].0 == hooks@[j] && results@[t].1@ == old(
                                        self,
                                    )@[hook_key(hooks@[j])].0);
                                }
                            }
                            if all_served_from_cache(hooks@, old(self)@) {
                                let k = hook_key(hooks@[i as int]);
                                assert(pre_cache == old(self)@ && pre_sink == old(sink)@);
                                assert(self@ == old(self)@ && sink@ == old(sink)@);
                                assert(out@ == old(self)@[k].0);
                                assert forall|j: int|
                                    0 <= j < i as int + 1 && !(#[trigger] hooks@[j]).disabled
                                        implies exists|t: int|
                                        0 <= t < results@.len() && (#[trigger] results@[t]).0
                                            == hooks@[j] && results@[t].1@ == old(self)@[hook_key(
                                            hooks@[j],
                                        )].0 by {
                                    if j < i as int {
                                        let t = choose|t: int|
                                            0 <= t < pre_results.len() && (
                                            #[trigger] pre_results[t]).0 == hooks@[j]
                                                && pre_results[t].1@ == old(self)@[hook_key(
                                                hooks@[j],
                                            )].0;
                                        assert(results@[t] == pre_results[t]);
                                    } else {
                                        let t = pre_results.len() as int;
                                        assert(results@[t].0 == hooks@[i as int]);
                                        assert(results@[t].1@ == old(self)@[k].0);
                                    }
                                }
                            }
                        }
                    },
                    None => {
                        proof {
                            lemma_selection_extend(
                                hooks@,
                                old(self)@,
                                results@,
                                m,
                                i as int,
                                i as int + 1,
                            );
                            if all_served_from_cache(hooks@, old(self)@) {
                                assert(pre_cache == old(self)@);
                                assert(hook_cache_applies(hooks@[i as int]) && pre_cache.contains_key(
                                    hook_key(hooks@[i as int]),
                                ) && pre_cache[hook_key(hooks@[i as int])].1 is None);
                                assert(false);
                            }
                            assert forall|j: int|
                                0 <= j < i as int + 1 && #[trigger] covered_by_session_cache(
                                    hooks@,
                                    old(self)@,
                                    j,
                                ) implies answered_from_cache(hooks@, old(self)@, results@, j) by {
                                if j == i as int {
                                    let k = hook_key(hooks@[i as int]);
                                    assert(pre_cache.contains_key(k) && pre_cache[k].1 is None);
                                    assert(false);
                                }
                            }
                        }
                    },
                }
            } else {
                proof {
                    lemma_selection_extend(hooks@, old(self)@, results@, m, i as int, i as int + 1);
                    lemma_evolution_extend(hooks@, old(self)@, self@, i as int, i as int + 1);
                }
            }
            i += 1;
        }
        proof {
            assert(run_selection_ok(hooks@, old(self)@, results@, m));
        }
        results
    }
}

} // verus!
