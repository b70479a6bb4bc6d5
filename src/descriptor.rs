//! A package descriptor and the upsert that merges one release target into it.
//!
//! A descriptor holds an ordered list of releases. A release is named by its
//! version and its optional channel and holds an ordered list of targets, one
//! per platform. A payload is carried through without being looked at.
use crate::request::Request;
use vstd::prelude::*;

verus! {

/// The installable artifact of one release for one platform.
#[derive(Debug, Clone, PartialEq, Eq)]
pub struct Target<P> {
    pub platform: String,
    pub payload: P,
}

/// One version of a package on one channel; `None` is the stable channel.
#[derive(Debug, Clone, PartialEq, Eq)]
pub struct Release<P> {
    pub version: String,
    pub channel: Option<String>,
    pub target: Vec<Target<P>>,
}

/// The releases of one package, most recent first.
#[derive(Debug, Clone, PartialEq, Eq)]
pub struct Descriptor<P> {
    pub release: Vec<Release<P>>,
}

/// A target as a platform and a payload.
pub type TargetView<P> = (Seq<char>, P);

/// A release as a version, a channel and its targets.
pub type ReleaseView<P> = (Seq<char>, Option<Seq<char>>, Seq<TargetView<P>>);

/// The text of an optional channel.
pub open spec fn channel_view(c: Option<String>) -> Option<Seq<char>> {
    match c {
        Some(s) => Some(s@),
        None => None,
    }
}

impl<P> View for Target<P> {
    type V = TargetView<P>;

    open spec fn view(&self) -> TargetView<P> {
        (self.platform@, self.payload)
    }
}

/// The targets of a list as their views.
pub open spec fn targets_view<P>(ts: Seq<Target<P>>) -> Seq<TargetView<P>> {
    ts.map_values(|t: Target<P>| t@)
}

impl<P> View for Release<P> {
    type V = ReleaseView<P>;

    open spec fn view(&self) -> ReleaseView<P> {
        (self.version@, channel_view(self.channel), targets_view(self.target@))
    }
}

/// The releases of a list as their views.
pub open spec fn releases_view<P>(rs: Seq<Release<P>>) -> Seq<ReleaseView<P>> {
    rs.map_values(|r: Release<P>| r@)
}

impl<P> View for Descriptor<P> {
    type V = Seq<ReleaseView<P>>;

    open spec fn view(&self) -> Seq<ReleaseView<P>> {
        releases_view(self.release@)
    }
}

/// `i` is the first position of a target for `platform`.
pub open spec fn first_target<P>(ts: Seq<TargetView<P>>, platform: Seq<char>, i: int) -> bool {
    &&& 0 <= i < ts.len()
    &&& ts[i].0 == platform
    &&& forall|j: int| 0 <= j < i ==> ts[j].0 != platform
}

/// `i` is the first position of a release with this version and channel.
pub open spec fn first_release<P>(
    rs: Seq<ReleaseView<P>>,
    version: Seq<char>,
    channel: Option<Seq<char>>,
    i: int,
) -> bool {
    &&& 0 <= i < rs.len()
    &&& rs[i].0 == version && rs[i].1 == channel
    &&& forall|j: int| 0 <= j < i ==> !(rs[j].0 == version && rs[j].1 == channel)
}

/// The targets after setting the payload for `platform`: the first target for
/// that platform gets the payload in place, or a new target goes in front.
pub open spec fn target_upserted<P>(ts: Seq<TargetView<P>>, platform: Seq<char>, payload: P) -> Seq<
    TargetView<P>,
> {
    if exists|i: int| first_target(ts, platform, i) {
        let i = choose|i: int| first_target(ts, platform, i);
        ts.update(i, (platform, payload))
    } else {
        seq![(platform, payload)] + ts
    }
}

/// The releases after setting the payload for `platform` in the release with
/// this version and channel: the first such release is changed in place, or
/// a new release with that one target goes in front.
pub open spec fn upserted<P>(
    rs: Seq<ReleaseView<P>>,
    version: Seq<char>,
    channel: Option<Seq<char>>,
    platform: Seq<char>,
    payload: P,
) -> Seq<ReleaseView<P>> {
    if exists|i: int| first_release(rs, version, channel, i) {
        let i = choose|i: int| first_release(rs, version, channel, i);
        rs.update(i, (rs[i].0, rs[i].1, target_upserted(rs[i].2, platform, payload)))
    } else {
        seq![(version, channel, seq![(platform, payload)])] + rs
    }
}

/// Whether two optional channels are the same; `None` equals only `None`.
fn same_channel(a: &Option<String>, b: &Option<String>) -> (r: bool)
    ensures
        r == (channel_view(*a) == channel_view(*b)),
{
    match (a, b) {
        (Some(x), Some(y)) => *x == *y,
        (None, None) => true,
        _ => false,
    }
}

/// The position of the first target for `platform`, if any.
pub fn find_target<P>(targets: &Vec<Target<P>>, platform: &String) -> (r: Option<usize>)
    ensures
        match r {
            Some(i) => first_target(targets_view(targets@), platform@, i as int),
            None => forall|j: int| 0 <= j < targets@.len() ==> targets@[j].platform@ != platform@,
        },
{
    let mut i: usize = 0;
    while i < targets.len()
        invariant
            0 <= i <= targets@.len(),
            forall|j: int| 0 <= j < i ==> targets@[j].platform@ != platform@,
        decreases targets@.len() - i,
    {
        if targets[i].platform == *platform {
            return Some(i);
        }
        i = i + 1;
    }
    None
}

/// The position of the first release with this version and channel, if any.
pub fn find_release<P>(releases: &Vec<Release<P>>, version: &String, channel: &Option<String>) -> (r:
    Option<usize>)
    ensures
        match r {
            Some(i) => first_release(releases_view(releases@), version@, channel_view(*channel), i as int),
            None => forall|j: int|
                0 <= j < releases@.len() ==> !(releases@[j].version@ == version@ && channel_view(
                    releases@[j].channel,
                ) == channel_view(*channel)),
        },
{
    let mut i: usize = 0;
    while i < releases.len()
        invariant
            0 <= i <= releases@.len(),
            forall|j: int|
                0 <= j < i ==> !(releases@[j].version@ == version@ && channel_view(releases@[j].channel)
                    == channel_view(*channel)),
        decreases releases@.len() - i,
    {
        let r = &releases[i];
        if r.version == *version && same_channel(&r.channel, channel) {
            return Some(i);
        }
        i = i + 1;
    }
    None
}

/// Sets the payload for `platform`: overwrites the first target for it in
/// place, or puts a new target in front.
pub fn upsert_target<P>(targets: &mut Vec<Target<P>>, platform: String, payload: P)
    ensures
        targets_view(final(targets)@) == target_upserted(targets_view(old(targets)@), platform@, payload),
{
    let ghost ts = targets_view(targets@);
    let ghost pv = platform@;
    match find_target(targets, &platform) {
        Some(i) => {
            assert(first_target(ts, pv, i as int));
            targets[i].payload = payload;
            assert(targets_view(targets@) =~= ts.update(i as int, (pv, payload)));
        },
        None => {
            targets.insert(0, Target { platform, payload });
            assert(targets_view(targets@) =~= seq![(pv, payload)] + ts);
        },
    }
}

/// Within one list no two targets share a platform.
pub open spec fn unique_platforms<P>(ts: Seq<TargetView<P>>) -> bool {
    forall|i: int, j: int| 0 <= i < j < ts.len() ==> ts[i].0 != ts[j].0
}

/// No two releases share a version and a channel, and within each release no
/// two targets share a platform.
pub open spec fn well_formed<P>(rs: Seq<ReleaseView<P>>) -> bool {
    &&& forall|i: int, j: int|
        0 <= i < j < rs.len() ==> !(rs[i].0 == rs[j].0 && rs[i].1 == rs[j].1)
    &&& forall|i: int| 0 <= i < rs.len() ==> unique_platforms(#[trigger] rs[i].2)
}

/// Merges the request's payload into the descriptor: the release with the
/// request's version and channel is reused in place or created in front, and
/// within it the target for the request's platform gets the payload in place
/// or is created in front.
pub fn update<P>(descriptor: &mut Descriptor<P>, request: Request<P>)
    ensures
        final(descriptor)@ == upserted(
            old(descriptor)@,
            request.version@,
            channel_view(request.channel),
            request.platform@,
            request.payload,
        ),
        well_formed(old(descriptor)@) ==> well_formed(final(descriptor)@),
{
    let ghost rs = descriptor@;
    let ghost v = request.version@;
    let ghost c = channel_view(request.channel);
    let ghost p = request.platform@;
    let ghost pl = request.payload;
    let Request { platform, channel, version, payload, .. } = request;
    match find_release(&descriptor.release, &version, &channel) {
        Some(i) => {
            assert(first_release(rs, v, c, i as int));
            let ghost k = choose|k: int| first_release(rs, v, c, k);
            assert(k == i);
            upsert_target(&mut descriptor.release[i].target, platform, payload);
            assert(descriptor@ =~= rs.update(
                i as int,
                (rs[i as int].0, rs[i as int].1, target_upserted(rs[i as int].2, p, pl)),
            ));
        },
        None => {
            assert forall|k: int| !first_release(rs, v, c, k) by {
                if 0 <= k < rs.len() {
                    assert(rs[k] == descriptor.release@[k]@);
                }
            }
            let mut target: Vec<Target<P>> = Vec::new();
            target.push(Target { platform, payload });
            descriptor.release.insert(0, Release { version, channel, target });
            assert(targets_view(descriptor.release@[0].target@) =~= seq![(p, pl)]);
            assert(descriptor@ =~= seq![(v, c, seq![(p, pl)])] + rs);
        },
    }
    proof {
        if well_formed(rs) {
            lemma_update_keeps_uniqueness(rs, v, c, p, pl);
        }
    }
}

/// Setting the same payload for the same platform twice leaves the targets as
/// setting it once.
pub proof fn lemma_target_upsert_idempotent<P>(ts: Seq<TargetView<P>>, platform: Seq<char>, payload: P)
    ensures
        target_upserted(target_upserted(ts, platform, payload), platform, payload) == target_upserted(
            ts,
            platform,
            payload,
        ),
{
    let t1 = target_upserted(ts, platform, payload);
    if exists|i: int| first_target(ts, platform, i) {
        let i = choose|i: int| first_target(ts, platform, i);
        assert(first_target(t1, platform, i));
        let k = choose|k: int| first_target(t1, platform, k);
        assert(k == i);
        assert(t1.update(i, (platform, payload)) =~= t1);
    } else {
        assert(first_target(t1, platform, 0));
        let k = choose|k: int| first_target(t1, platform, k);
        assert(k == 0);
        assert(t1.update(0, (platform, payload)) =~= t1);
    }
}

/// Applying the same update twice gives the same descriptor as applying it
/// once.
pub proof fn lemma_update_idempotent<P>(
    rs: Seq<ReleaseView<P>>,
    version: Seq<char>,
    channel: Option<Seq<char>>,
    platform: Seq<char>,
    payload: P,
)
    ensures
        upserted(upserted(rs, version, channel, platform, payload), version, channel, platform, payload)
            == upserted(rs, version, channel, platform, payload),
{
    let r1 = upserted(rs, version, channel, platform, payload);
    if exists|i: int| first_release(rs, version, channel, i) {
        let i = choose|i: int| first_release(rs, version, channel, i);
        assert(first_release(r1, version, channel, i));
        let k = choose|k: int| first_release(r1, version, channel, k);
        assert(k == i);
        lemma_target_upsert_idempotent(rs[i].2, platform, payload);
        assert(r1.update(i, (r1[i].0, r1[i].1, target_upserted(r1[i].2, platform, payload))) =~= r1);
    } else {
        assert(first_release(r1, version, channel, 0));
        let k = choose|k: int| first_release(r1, version, channel, k);
        assert(k == 0);
        lemma_target_upsert_idempotent(Seq::<TargetView<P>>::empty(), platform, payload);
        assert(target_upserted(Seq::<TargetView<P>>::empty(), platform, payload) =~= seq![
            (platform, payload),
        ]);
        assert(r1.update(0, (r1[0].0, r1[0].1, target_upserted(r1[0].2, platform, payload))) =~= r1);
    }
}

/// Setting a payload keeps the platforms of a target list distinct.
pub proof fn lemma_target_upsert_keeps_uniqueness<P>(
    ts: Seq<TargetView<P>>,
    platform: Seq<char>,
    payload: P,
)
    requires
        unique_platforms(ts),
    ensures
        unique_platforms(target_upserted(ts, platform, payload)),
{
    if !exists|i: int| first_target(ts, platform, i) {
        assert forall|j: int| 0 <= j < ts.len() implies ts[j].0 != platform by {
            if ts[j].0 == platform {
                assert(first_target(ts, platform, j));
            }
        }
        let t1 = target_upserted(ts, platform, payload);
        assert forall|i: int, j: int| 0 <= i < j < t1.len() implies t1[i].0 != t1[j].0 by {
            if i > 0 {
                assert(t1[i] == ts[i - 1] && t1[j] == ts[j - 1]);
            }
        }
    }
}

/// An update of a descriptor whose releases and targets are distinct keeps
/// them distinct.
pub proof fn lemma_update_keeps_uniqueness<P>(
    rs: Seq<ReleaseView<P>>,
    version: Seq<char>,
    channel: Option<Seq<char>>,
    platform: Seq<char>,
    payload: P,
)
    requires
        well_formed(rs),
    ensures
        well_formed(upserted(rs, version, channel, platform, payload)),
{
    let r1 = upserted(rs, version, channel, platform, payload);
    if exists|i: int| first_release(rs, version, channel, i) {
        let i = choose|i: int| first_release(rs, version, channel, i);
        lemma_target_upsert_keeps_uniqueness(rs[i].2, platform, payload);
        assert forall|k: int| 0 <= k < r1.len() implies unique_platforms(#[trigger] r1[k].2) by {
            if k != i {
                assert(r1[k] == rs[k]);
            }
        }
    } else {
        assert forall|j: int| 0 <= j < rs.len() implies !(rs[j].0 == version && rs[j].1 == channel) by {
            if rs[j].0 == version && rs[j].1 == channel {
                assert(first_release(rs, version, channel, j));
            }
        }
        assert(unique_platforms(seq![(platform, payload)]));
        assert forall|k: int| 0 <= k < r1.len() implies unique_platforms(#[trigger] r1[k].2) by {
            if k > 0 {
                assert(r1[k] == rs[k - 1]);
            }
        }
        assert forall|a: int, b: int| 0 <= a < b < r1.len() implies !(r1[a].0 == r1[b].0 && r1[a].1
            == r1[b].1) by {
            if a > 0 {
                assert(r1[a] == rs[a - 1] && r1[b] == rs[b - 1]);
            } else {
                assert(r1[b] == rs[b - 1]);
            }
        }
    }
}

/// A release that matches no existing one goes in front, with the request's
/// target as its only one, and the other releases keep their order.
pub proof fn lemma_new_release_in_front<P>(
    rs: Seq<ReleaseView<P>>,
    version: Seq<char>,
    channel: Option<Seq<char>>,
    platform: Seq<char>,
    payload: P,
)
    requires
        forall|j: int| 0 <= j < rs.len() ==> !(rs[j].0 == version && rs[j].1 == channel),
    ensures
        upserted(rs, version, channel, platform, payload)[0] == (
            version,
            channel,
            seq![(platform, payload)],
        ),
        upserted(rs, version, channel, platform, payload).subrange(1, rs.len() + 1 as int) == rs,
{
    let r1 = upserted(rs, version, channel, platform, payload);
    assert(r1.subrange(1, rs.len() + 1 as int) =~= rs);
}

/// Within an existing release, a target for a platform that it lacks goes in
/// front, its other targets keep their order, and every other release stays
/// as it was.
pub proof fn lemma_new_target_in_front<P>(
    rs: Seq<ReleaseView<P>>,
    version: Seq<char>,
    channel: Option<Seq<char>>,
    platform: Seq<char>,
    payload: P,
    i: int,
)
    requires
        first_release(rs, version, channel, i),
        forall|j: int| 0 <= j < rs[i].2.len() ==> rs[i].2[j].0 != platform,
    ensures
        upserted(rs, version, channel, platform, payload).len() == rs.len(),
        upserted(rs, version, channel, platform, payload)[i].2[0] == (platform, payload),
        upserted(rs, version, channel, platform, payload)[i].2.subrange(1, rs[i].2.len() + 1 as int)
            == rs[i].2,
        forall|k: int|
            0 <= k < rs.len() && k != i ==> upserted(rs, version, channel, platform, payload)[k]
                == rs[k],
{
    let k = choose|k: int| first_release(rs, version, channel, k);
    assert(k == i);
    let t1 = target_upserted(rs[i].2, platform, payload);
    assert(t1.subrange(1, rs[i].2.len() + 1 as int) =~= rs[i].2);
}

/// A request whose release and target are already there, with the same
/// payload, leaves the releases as they were.
pub proof fn lemma_update_without_change<P>(
    rs: Seq<ReleaseView<P>>,
    version: Seq<char>,
    channel: Option<Seq<char>>,
    platform: Seq<char>,
    payload: P,
    i: int,
    j: int,
)
    requires
        first_release(rs, version, channel, i),
        first_target(rs[i].2, platform, j),
        rs[i].2[j].1 == payload,
    ensures
        upserted(rs, version, channel, platform, payload) == rs,
{
    let k = choose|k: int| first_release(rs, version, channel, k);
    assert(k == i);
    let l = choose|l: int| first_target(rs[i].2, platform, l);
    assert(l == j);
    assert(rs[i].2.update(j, (platform, payload)) =~= rs[i].2);
    assert(rs.update(i, (rs[i].0, rs[i].1, rs[i].2)) =~= rs);
}

} // verus!
