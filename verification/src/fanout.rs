//! Fanout: from one notification to a deduplicated set of delivery jobs.
//!
//! The dispatcher resolves a post to relay identities, drops duplicate
//! identities, expands each identity to its follower inboxes, and builds
//! exactly one delivery job per distinct inbox, in the order the inboxes
//! are first met.

use vstd::prelude::*;

use crate::actor::{Actor, ActorView, KindView, key_id_of, uri_of};
use crate::announce::{announce_body, announce_body_of};
use crate::post::{Post, target_kinds_of};

verus! {

/// Spec-level value of a `Job`.
pub struct JobView {
    pub inbox: Seq<char>,
    pub actor_uri: Seq<char>,
    pub key_id: Seq<char>,
    pub body: Seq<char>,
    pub post_url: Seq<char>,
}

/// One immutable unit of work: deliver `body` to `inbox`, signed with the
/// key of the identity at `actor_uri`.
pub struct Job {
    pub inbox: String,
    pub actor_uri: String,
    pub key_id: String,
    pub body: String,
    pub post_url: String,
}

impl View for Job {
    type V = JobView;

    open spec fn view(&self) -> JobView {
        JobView {
            inbox: self.inbox@,
            actor_uri: self.actor_uri@,
            key_id: self.key_id@,
            body: self.body@,
            post_url: self.post_url@,
        }
    }
}

/// Spec-level value of an `Expansion`.
pub struct ExpansionView {
    pub actor: ActorView,
    pub inboxes: Seq<Seq<char>>,
}

/// One relay identity together with the follower inboxes it expanded to.
pub struct Expansion {
    pub actor: Actor,
    pub inboxes: Vec<String>,
}

impl View for Expansion {
    type V = ExpansionView;

    open spec fn view(&self) -> ExpansionView {
        ExpansionView { actor: self.actor@, inboxes: self.inboxes@.map_values(|s: String| s@) }
    }
}

/// The job delivering the announce of `post_uri` (under activity id
/// `post_url`) for identity `a` to `inbox`.
pub open spec fn job_for(
    a: ActorView,
    inbox: Seq<char>,
    post_uri: Seq<char>,
    post_url: Seq<char>,
) -> JobView {
    JobView {
        inbox,
        actor_uri: uri_of(a),
        key_id: key_id_of(a),
        body: announce_body_of(uri_of(a), post_uri, post_url),
        post_url,
    }
}

/// Jobs for one identity's inboxes, given the inboxes already seen; yields
/// the jobs and the new seen set (a sequence, in first-met order).
pub open spec fn inbox_jobs(
    a: ActorView,
    inboxes: Seq<Seq<char>>,
    seen: Seq<Seq<char>>,
    post_uri: Seq<char>,
    post_url: Seq<char>,
) -> (Seq<JobView>, Seq<Seq<char>>)
    decreases inboxes.len(),
{
    if inboxes.len() == 0 {
        (Seq::empty(), seen)
    } else if seen.contains(inboxes[0]) {
        inbox_jobs(a, inboxes.skip(1), seen, post_uri, post_url)
    } else {
        let r = inbox_jobs(a, inboxes.skip(1), seen.push(inboxes[0]), post_uri, post_url);
        (seq![job_for(a, inboxes[0], post_uri, post_url)] + r.0, r.1)
    }
}

/// Jobs for a sequence of identity expansions, threading the seen inboxes
/// through.
pub open spec fn expansions_jobs(
    exps: Seq<ExpansionView>,
    seen: Seq<Seq<char>>,
    post_uri: Seq<char>,
    post_url: Seq<char>,
) -> (Seq<JobView>, Seq<Seq<char>>)
    decreases exps.len(),
{
    if exps.len() == 0 {
        (Seq::empty(), seen)
    } else {
        let first = inbox_jobs(exps[0].actor, exps[0].inboxes, seen, post_uri, post_url);
        let rest = expansions_jobs(exps.skip(1), first.1, post_uri, post_url);
        (first.0 + rest.0, rest.1)
    }
}

/// All delivery jobs one notification produces, over the deduplicated
/// identities and their follower inboxes.
pub open spec fn fanout_jobs_of(
    exps: Seq<ExpansionView>,
    post_uri: Seq<char>,
    post_url: Seq<char>,
) -> Seq<JobView> {
    expansions_jobs(exps, Seq::empty(), post_uri, post_url).0
}

/// First-occurrence deduplication, keeping order.
pub open spec fn dedup_from(s: Seq<ActorView>, seen: Seq<ActorView>) -> Seq<ActorView>
    decreases s.len(),
{
    if s.len() == 0 {
        Seq::empty()
    } else if seen.contains(s[0]) {
        dedup_from(s.skip(1), seen)
    } else {
        seq![s[0]] + dedup_from(s.skip(1), seen.push(s[0]))
    }
}

/// The resolved identities with duplicates dropped, first occurrence kept.
pub open spec fn dedup_views(s: Seq<ActorView>) -> Seq<ActorView> {
    dedup_from(s, Seq::empty())
}

/// Whether `v` holds an actor whose value is `a`.
fn contains_actor(v: &Vec<Actor>, a: &Actor) -> (r: bool)
    ensures
        r == v@.map_values(|x: Actor| x@).contains(a@),
{
    let n = v.len();
    for i in 0..n
        invariant
            n == v@.len(),
            forall|j: int| 0 <= j < i ==> (#[trigger] v@[j])@ != a@,
    {
        if v[i].same_actor(a) {
            proof {
                assert(v@.map_values(|x: Actor| x@)[i as int] == a@);
            }
            return true;
        }
    }
    false
}

/// Whether `v` holds a string whose value is `s`.
fn contains_str(v: &Vec<String>, s: &String) -> (r: bool)
    ensures
        r == v@.map_values(|x: String| x@).contains(s@),
{
    let n = v.len();
    for i in 0..n
        invariant
            n == v@.len(),
            forall|j: int| 0 <= j < i ==> (#[trigger] v@[j])@ != s@,
    {
        if v[i].eq(s) {
            proof {
                assert(v@.map_values(|x: String| x@)[i as int] == s@);
            }
            return true;
        }
    }
    false
}

/// Drop duplicate relay identities, keeping the first occurrence of each
/// and the order of first occurrences.
pub fn dedup_targets(targets: &Vec<Actor>) -> (r: Vec<Actor>)
    ensures
        r@.map_values(|a: Actor| a@) == dedup_views(targets@.map_values(|a: Actor| a@)),
{
    let ghost tv: Seq<ActorView> = targets@.map_values(|a: Actor| a@);
    let mut r: Vec<Actor> = Vec::new();
    let n = targets.len();
    proof {
        assert(r@.map_values(|a: Actor| a@) =~= Seq::<ActorView>::empty());
        assert(tv.skip(0) =~= tv);
    }
    for i in 0..n
        invariant
            n == targets@.len(),
            tv == targets@.map_values(|a: Actor| a@),
            dedup_views(tv) == r@.map_values(|a: Actor| a@) + dedup_from(
                tv.skip(i as int),
                r@.map_values(|a: Actor| a@),
            ),
    {
        let ghost seen: Seq<ActorView> = r@.map_values(|a: Actor| a@);
        proof {
            assert(tv.skip(i as int)[0] == tv[i as int]);
            assert(tv[i as int] == targets@[i as int]@);
            assert(tv.skip(i as int).skip(1) =~= tv.skip(i + 1));
        }
        if !contains_actor(&r, &targets[i]) {
            r.push(targets[i].duplicate());
            proof {
                assert(r@.map_values(|a: Actor| a@) =~= seen.push(tv[i as int]));
                assert(seen + (seq![tv[i as int]] + dedup_from(tv.skip(i + 1), seen.push(
                    tv[i as int],
                ))) =~= seen.push(tv[i as int]) + dedup_from(tv.skip(i + 1), seen.push(
                    tv[i as int],
                )));
            }
        }
    }
    proof {
        assert(tv.skip(n as int) =~= Seq::<ActorView>::empty());
        assert(r@.map_values(|a: Actor| a@) + Seq::<ActorView>::empty() =~= r@.map_values(
            |a: Actor| a@,
        ));
        assert(dedup_views(tv) =~= r@.map_values(|a: Actor| a@));
    }
    r
}

/// The identities one notification is to be relayed under: nothing for a
/// reshare (no `url`), and otherwise the resolved identities with
/// duplicates dropped, in first-occurrence order.
pub fn plan_targets(post: &Post, hostname: &str) -> (r: Option<Vec<Actor>>)
    ensures
        match r {
            None => post@.url is None,
            Some(ts) => post@.url is Some && ts@.map_values(|a: Actor| a@) == dedup_views(
                target_kinds_of(post@).map_values(
                    (|k: KindView| ActorView { host: hostname@, kind: k }),
                ),
            ),
        },
{
    if post.url.is_none() {
        return None;
    }
    let targets = post.relay_targets(hostname);
    Some(dedup_targets(&targets))
}

/// Build the delivery jobs for one notification: one per distinct inbox,
/// in first-met order, each carrying the announce body, URI and key id of
/// the identity under which its inbox was first met.
pub fn build_jobs(post_url: &str, post_uri: &str, expansions: &Vec<Expansion>) -> (jobs: Vec<Job>)
    ensures
        jobs@.map_values(|j: Job| j@) == fanout_jobs_of(
            expansions@.map_values(|e: Expansion| e@),
            post_uri@,
            post_url@,
        ),
{
    let ghost evs: Seq<ExpansionView> = expansions@.map_values(|e: Expansion| e@);
    let ghost pu: Seq<char> = post_uri@;
    let ghost pl: Seq<char> = post_url@;
    let mut jobs: Vec<Job> = Vec::new();
    let mut seen: Vec<String> = Vec::new();
    let n = expansions.len();
    proof {
        assert(jobs@.map_values(|j: Job| j@) =~= Seq::<JobView>::empty());
        assert(seen@.map_values(|s: String| s@) =~= Seq::<Seq<char>>::empty());
        assert(evs.skip(0) =~= evs);
        assert(Seq::<JobView>::empty() + expansions_jobs(evs, Seq::empty(), pu, pl).0
            =~= expansions_jobs(evs, Seq::empty(), pu, pl).0);
    }
    for i in 0..n
        invariant
            n == expansions@.len(),
            evs == expansions@.map_values(|e: Expansion| e@),
            pu == post_uri@,
            pl == post_url@,
            jobs@.map_values(|j: Job| j@) + expansions_jobs(
                evs.skip(i as int),
                seen@.map_values(|s: String| s@),
                pu,
                pl,
            ).0 == fanout_jobs_of(evs, pu, pl),
    {
        let e = &expansions[i];
        let ghost a: ActorView = evs[i as int].actor;
        let ghost ibs: Seq<Seq<char>> = evs[i as int].inboxes;
        proof {
            assert(evs[i as int] == expansions@[i as int]@);
            assert(evs.skip(i as int)[0] == evs[i as int]);
            assert(evs.skip(i as int).skip(1) =~= evs.skip(i + 1));
        }
        let actor_uri = e.actor.uri();
        let key_id = e.actor.key_id();
        let body = announce_body(actor_uri.as_str(), post_uri, post_url);
        let m = e.inboxes.len();
        proof {
            let s0 = seen@.map_values(|s: String| s@);
            assert(ibs.skip(0) =~= ibs);
            assert(expansions_jobs(evs.skip(i as int), s0, pu, pl).0 == inbox_jobs(
                a,
                ibs,
                s0,
                pu,
                pl,
            ).0 + expansions_jobs(evs.skip(i + 1), inbox_jobs(a, ibs, s0, pu, pl).1, pu, pl).0);
        }
        for j in 0..m
            invariant
                m == e.inboxes@.len(),
                ibs == e.inboxes@.map_values(|s: String| s@),
                a == e.actor@,
                pu == post_uri@,
                pl == post_url@,
                actor_uri@ == uri_of(a),
                key_id@ == key_id_of(a),
                body@ == announce_body_of(uri_of(a), pu, pl),
                evs.skip(i + 1) == expansions@.map_values(|x: Expansion| x@).skip(i + 1),
                jobs@.map_values(|x: Job| x@) + inbox_jobs(
                    a,
                    ibs.skip(j as int),
                    seen@.map_values(|s: String| s@),
                    pu,
                    pl,
                ).0 + expansions_jobs(
                    evs.skip(i + 1),
                    inbox_jobs(a, ibs.skip(j as int), seen@.map_values(|s: String| s@), pu, pl).1,
                    pu,
                    pl,
                ).0 == fanout_jobs_of(evs, pu, pl),
        {
            let ghost s0: Seq<Seq<char>> = seen@.map_values(|s: String| s@);
            let ghost jv0: Seq<JobView> = jobs@.map_values(|x: Job| x@);
            proof {
                assert(ibs.skip(j as int)[0] == ibs[j as int]);
                assert(ibs[j as int] == e.inboxes@[j as int]@);
                assert(ibs.skip(j as int).skip(1) =~= ibs.skip(j + 1));
            }
            if !contains_str(&seen, &e.inboxes[j]) {
                seen.push(e.inboxes[j].clone());
                jobs.push(
                    Job {
                        inbox: e.inboxes[j].clone(),
                        actor_uri: actor_uri.clone(),
                        key_id: key_id.clone(),
                        body: body.clone(),
                        post_url: post_url.to_owned(),
                    },
                );
                proof {
                    assert(seen@.map_values(|s: String| s@) =~= s0.push(ibs[j as int]));
                    assert(jobs@.map_values(|x: Job| x@) =~= jv0.push(
                        job_for(a, ibs[j as int], pu, pl),
                    ));
                    assert(jv0.push(job_for(a, ibs[j as int], pu, pl)) =~= jv0 + seq![
                        job_for(a, ibs[j as int], pu, pl),
                    ]);
                    assert(inbox_jobs(a, ibs.skip(j as int), s0, pu, pl).0 =~= seq![
                        job_for(a, ibs[j as int], pu, pl),
                    ] + inbox_jobs(a, ibs.skip(j + 1), s0.push(ibs[j as int]), pu, pl).0);
                    assert((jv0 + seq![job_for(a, ibs[j as int], pu, pl)]) + inbox_jobs(
                        a,
                        ibs.skip(j + 1),
                        s0.push(ibs[j as int]),
                        pu,
                        pl,
                    ).0 =~= jv0 + inbox_jobs(a, ibs.skip(j as int), s0, pu, pl).0);
                }
            }
        }
        proof {
            assert(ibs.skip(m as int) =~= Seq::<Seq<char>>::empty());
            assert(inbox_jobs(a, ibs.skip(m as int), seen@.map_values(|s: String| s@), pu, pl).0
                =~= Seq::<JobView>::empty());
            assert(jobs@.map_values(|x: Job| x@) + Seq::<JobView>::empty() =~= jobs@.map_values(
                |x: Job| x@,
            ));
        }
    }
    proof {
        assert(evs.skip(n as int) =~= Seq::<ExpansionView>::empty());
        assert(jobs@.map_values(|j: Job| j@) + Seq::<JobView>::empty() =~= jobs@.map_values(
            |j: Job| j@,
        ));
    }
    jobs
}

/// How many of `jobs` deliver to inbox `x`.
pub open spec fn count_for_inbox(jobs: Seq<JobView>, x: Seq<char>) -> int
    decreases jobs.len(),
{
    if jobs.len() == 0 {
        0
    } else {
        (if jobs[0].inbox == x {
            1int
        } else {
            0int
        }) + count_for_inbox(jobs.skip(1), x)
    }
}

/// The count distributes over concatenation.
pub proof fn lemma_count_append(a: Seq<JobView>, b: Seq<JobView>, x: Seq<char>)
    ensures
        count_for_inbox(a + b, x) == count_for_inbox(a, x) + count_for_inbox(b, x),
    decreases a.len(),
{
    if a.len() == 0 {
        assert(a + b =~= b);
    } else {
        assert((a + b).skip(1) =~= a.skip(1) + b);
        lemma_count_append(a.skip(1), b, x);
    }
}

/// A non-empty sequence holds `x` iff its head is `x` or its tail holds
/// `x`.
proof fn lemma_contains_head_or_tail(s: Seq<Seq<char>>, x: Seq<char>)
    requires
        s.len() > 0,
    ensures
        s.contains(x) <==> (s[0] == x || s.skip(1).contains(x)),
{
    broadcast use vstd::seq_lib::group_seq_properties;

    if s.contains(x) {
        let idx = s.lemma_contains_to_index(x);
        if idx > 0 {
            assert(s.skip(1)[idx - 1] == x);
        }
    }
    if s.skip(1).contains(x) {
        let idx = s.skip(1).lemma_contains_to_index(x);
        assert(s[idx + 1] == x);
    }
}

/// The jobs and the seen set one identity's expansion yields: inbox `x`
/// gets exactly one job when it stands among the identity's inboxes and
/// was not seen before, and none otherwise, and the new seen set holds
/// exactly the old one and the identity's inboxes.
pub proof fn lemma_inbox_jobs_count(
    a: ActorView,
    inboxes: Seq<Seq<char>>,
    seen: Seq<Seq<char>>,
    post_uri: Seq<char>,
    post_url: Seq<char>,
    x: Seq<char>,
)
    ensures
        inbox_jobs(a, inboxes, seen, post_uri, post_url).1.contains(x) <==> (seen.contains(x)
            || inboxes.contains(x)),
        count_for_inbox(inbox_jobs(a, inboxes, seen, post_uri, post_url).0, x) == (
        if inboxes.contains(x) && !seen.contains(x) {
            1int
        } else {
            0int
        }),
    decreases inboxes.len(),
{
    broadcast use vstd::seq_lib::group_seq_properties;

    if inboxes.len() == 0 {
        assert(!inboxes.contains(x));
    } else {
        lemma_contains_head_or_tail(inboxes, x);
        let ib0 = inboxes[0];
        let rest = inboxes.skip(1);
        if seen.contains(ib0) {
            lemma_inbox_jobs_count(a, rest, seen, post_uri, post_url, x);
        } else {
            lemma_inbox_jobs_count(a, rest, seen.push(ib0), post_uri, post_url, x);
            let r = inbox_jobs(a, rest, seen.push(ib0), post_uri, post_url);
            lemma_count_append(seq![job_for(a, ib0, post_uri, post_url)], r.0, x);
            assert(seq![job_for(a, ib0, post_uri, post_url)].skip(1) =~= Seq::<JobView>::empty());
            assert(count_for_inbox(seq![job_for(a, ib0, post_uri, post_url)], x) == (
            if ib0 == x {
                1int
            } else {
                0int
            }));
        }
    }
}

/// Whether some expansion in `exps` lists inbox `x`.
pub open spec fn some_inbox(exps: Seq<ExpansionView>, x: Seq<char>) -> bool {
    exists|k: int| 0 <= k < exps.len() && (#[trigger] exps[k].inboxes).contains(x)
}

/// The jobs a whole fanout yields for inbox `x`: exactly one when some
/// identity's follower set lists `x` and `x` was not seen before, and
/// none otherwise.
pub proof fn lemma_expansions_jobs_count(
    exps: Seq<ExpansionView>,
    seen: Seq<Seq<char>>,
    post_uri: Seq<char>,
    post_url: Seq<char>,
    x: Seq<char>,
)
    ensures
        expansions_jobs(exps, seen, post_uri, post_url).1.contains(x) <==> (seen.contains(x)
            || some_inbox(exps, x)),
        count_for_inbox(expansions_jobs(exps, seen, post_uri, post_url).0, x) == (
        if some_inbox(exps, x) && !seen.contains(x) {
            1int
        } else {
            0int
        }),
    decreases exps.len(),
{
    if exps.len() == 0 {
        assert(!some_inbox(exps, x));
    } else {
        let first = inbox_jobs(exps[0].actor, exps[0].inboxes, seen, post_uri, post_url);
        let rest = expansions_jobs(exps.skip(1), first.1, post_uri, post_url);
        lemma_inbox_jobs_count(exps[0].actor, exps[0].inboxes, seen, post_uri, post_url, x);
        lemma_expansions_jobs_count(exps.skip(1), first.1, post_uri, post_url, x);
        lemma_count_append(first.0, rest.0, x);
        assert(some_inbox(exps, x) <==> (exps[0].inboxes.contains(x) || some_inbox(
            exps.skip(1),
            x,
        ))) by {
            if some_inbox(exps, x) {
                let k = choose|k: int|
                    0 <= k < exps.len() && (#[trigger] exps[k].inboxes).contains(x);
                if k > 0 {
                    assert(exps.skip(1)[k - 1].inboxes.contains(x));
                }
            }
            if some_inbox(exps.skip(1), x) {
                let k = choose|k: int|
                    0 <= k < exps.skip(1).len() && (#[trigger] exps.skip(1)[k].inboxes).contains(
                        x,
                    );
                assert(exps[k + 1].inboxes.contains(x));
            }
        }
    }
}

/// Even when several identities' follower sets overlap on one inbox, the
/// fanout produces exactly one delivery job for that inbox.
pub proof fn lemma_inbox_job_exactly_once(
    exps: Seq<ExpansionView>,
    post_uri: Seq<char>,
    post_url: Seq<char>,
    x: Seq<char>,
)
    requires
        some_inbox(exps, x),
    ensures
        count_for_inbox(fanout_jobs_of(exps, post_uri, post_url), x) == 1,
{
    broadcast use vstd::seq_lib::group_seq_properties;

    lemma_expansions_jobs_count(exps, Seq::empty(), post_uri, post_url, x);
    assert(!Seq::<Seq<char>>::empty().contains(x));
}

/// Helper for the fanout of identities that resolved to no inbox at all,
/// under any seen set.
proof fn lemma_expansions_no_inboxes(
    exps: Seq<ExpansionView>,
    seen: Seq<Seq<char>>,
    post_uri: Seq<char>,
    post_url: Seq<char>,
)
    requires
        forall|k: int| 0 <= k < exps.len() ==> (#[trigger] exps[k].inboxes).len() == 0,
    ensures
        expansions_jobs(exps, seen, post_uri, post_url).0.len() == 0,
    decreases exps.len(),
{
    if exps.len() > 0 {
        assert(exps[0].inboxes.len() == 0);
        assert(forall|k: int|
            0 <= k < exps.skip(1).len() ==> (#[trigger] exps.skip(1)[k].inboxes).len() == 0) by {
            assert(forall|k: int|
                0 <= k < exps.skip(1).len() ==> #[trigger] exps.skip(1)[k] == exps[k + 1]);
        }
        lemma_expansions_no_inboxes(exps.skip(1), seen, post_uri, post_url);
    }
}

/// A notification whose resolved identities together map to zero inboxes
/// produces zero delivery jobs.
pub proof fn lemma_no_inboxes_no_jobs(
    exps: Seq<ExpansionView>,
    post_uri: Seq<char>,
    post_url: Seq<char>,
)
    requires
        forall|k: int| 0 <= k < exps.len() ==> (#[trigger] exps[k].inboxes).len() == 0,
    ensures
        fanout_jobs_of(exps, post_uri, post_url).len() == 0,
{
    lemma_expansions_no_inboxes(exps, Seq::empty(), post_uri, post_url);
}

} // verus!
