//! Bringing a driver up to date, step by step.
//!
//! The wanted version is installed first; only then do older copies go. The other way
//! round, a live device would be left without a driver in between.

use crate::gameinstall::strings;
use crate::install::{
    ensure_driver, is_live, is_mine, law_only_older_copies_go, leftover_error, leftover_words,
    pkgs_of, removal_args, remove_packages, stale_below, stale_packages, version_live,
    DriverAction, InstalledPkg, PkgView,
};
use crate::text::{chars_of, put, string_of};
use vstd::prelude::*;

verus! {

/// How far the work has come.
#[derive(Clone, Copy, Debug, PartialEq, Eq, Structural)]
pub enum Stage {
    /// The installed packages are being listed.
    Looking,
    /// The wanted version is being installed.
    Installing,
    /// The installed packages are being listed again.
    Relisting,
    /// Older copies are being removed.
    Retiring,
    /// The wanted version is installed, and no older copy stays.
    Done,
    /// It went wrong.
    Failed,
}

/// What to do next.
#[derive(Debug, PartialEq, Eq)]
pub enum Step {
    /// List the installed packages.
    List,
    /// Install the wanted version.
    Install,
    /// Remove a package: the arguments of the package tool.
    Remove(Vec<String>),
    /// Nothing: the work is done.
    Done,
    /// Nothing: it went wrong, and why.
    Fail(String),
}

/// What came of a step.
#[derive(Debug, PartialEq, Eq)]
pub enum Event {
    /// The installed packages.
    Listed(Vec<InstalledPkg>),
    /// The installation ran.
    Installed,
    /// The installation could not be run, and why.
    NotInstalled(String),
    /// A package is gone, or is not.
    Removed(bool),
}

/// What to do next, as mathematics.
pub enum StepView {
    List,
    Install,
    Remove(Seq<Seq<char>>),
    Done,
    Fail(Seq<char>),
}

/// What came of a step, as mathematics.
pub enum EventView {
    Listed(Seq<PkgView>),
    Installed,
    NotInstalled(Seq<char>),
    Removed(bool),
}

impl View for Step {
    type V = StepView;

    open spec fn view(&self) -> StepView {
        match *self {
            Step::List => StepView::List,
            Step::Install => StepView::Install,
            Step::Remove(args) => StepView::Remove(strings(args@)),
            Step::Done => StepView::Done,
            Step::Fail(why) => StepView::Fail(why@),
        }
    }
}

impl View for Event {
    type V = EventView;

    open spec fn view(&self) -> EventView {
        match *self {
            Event::Listed(pkgs) => EventView::Listed(pkgs_of(pkgs@)),
            Event::Installed => EventView::Installed,
            Event::NotInstalled(why) => EventView::NotInstalled(why@),
            Event::Removed(gone) => EventView::Removed(gone),
        }
    }
}

/// The work on one driver.
pub struct Upgrade {
    inf: String,
    want: String,
    stage: Stage,
    pkgs: Vec<InstalledPkg>,
    /// The places in `pkgs` of the copies to remove.
    stale: Vec<usize>,
    /// How many of them have been tried, and how many of those are gone.
    tried: usize,
    gone: usize,
}

/// The work on one driver as mathematics.
#[verifier::ext_equal]
pub struct UpgradeView {
    /// The package's name.
    pub inf: Seq<char>,
    /// The version that it should have.
    pub want: Seq<char>,
    pub stage: Stage,
    /// What was listed when the removal of older copies began.
    pub pkgs: Seq<PkgView>,
    /// How many older copies have been tried, and how many of those are gone.
    pub tried: nat,
    pub gone: nat,
}

/// The places of the older copies in a list.
pub open spec fn older(u: UpgradeView) -> Seq<usize> {
    stale_below(u.pkgs, u.inf, u.want, u.pkgs.len() as int)
}

/// Nothing is known yet.
pub open spec fn begun(inf: Seq<char>, want: Seq<char>) -> UpgradeView {
    UpgradeView { inf, want, stage: Stage::Looking, pkgs: Seq::empty(), tried: 0, gone: 0 }
}

/// The work and its next step while older copies are removed: the next of them, or the
/// end.
pub open spec fn retired(u: UpgradeView) -> (UpgradeView, StepView) {
    if u.tried < older(u).len() {
        (
            UpgradeView { stage: Stage::Retiring, ..u },
            StepView::Remove(removal_args(u.pkgs[older(u)[u.tried as int] as int].published)),
        )
    } else if u.gone >= older(u).len() {
        (UpgradeView { stage: Stage::Done, ..u }, StepView::Done)
    } else {
        (
            UpgradeView { stage: Stage::Failed, ..u },
            StepView::Fail(leftover_words(u.inf, u.want, (older(u).len() - u.gone) as nat)),
        )
    }
}

/// The work fails.
pub open spec fn failed(u: UpgradeView, why: Seq<char>) -> (UpgradeView, StepView) {
    (UpgradeView { stage: Stage::Failed, ..u }, StepView::Fail(why))
}

/// An event can come in a stage.
pub open spec fn comes_in(stage: Stage, e: EventView) -> bool {
    match e {
        EventView::Listed(_) => stage == Stage::Looking || stage == Stage::Relisting,
        EventView::Installed => stage == Stage::Installing,
        EventView::NotInstalled(_) => stage == Stage::Installing,
        EventView::Removed(_) => stage == Stage::Retiring,
    }
}

/// The work after an event, and its next step. An event out of its place ends it.
pub open spec fn stepped(u: UpgradeView, e: EventView) -> (UpgradeView, StepView) {
    if !comes_in(u.stage, e) {
        failed(u, Seq::empty())
    } else {
        match e {
            EventView::Listed(pkgs) => if is_live(pkgs, u.inf, u.want) {
                retired(UpgradeView { pkgs, tried: 0, gone: 0, ..u })
            } else if u.stage == Stage::Looking {
                (UpgradeView { stage: Stage::Installing, ..u }, StepView::Install)
            } else {
                failed(u, "pnputil /add-driver did not populate the DriverStore"@)
            },
            EventView::Installed => (
                UpgradeView { stage: Stage::Relisting, ..u },
                StepView::List,
            ),
            EventView::NotInstalled(why) => failed(u, why),
            EventView::Removed(gone) => retired(
                UpgradeView {
                    tried: u.tried + 1,
                    gone: if gone {
                        u.gone + 1
                    } else {
                        u.gone
                    },
                    ..u
                },
            ),
        }
    }
}

impl View for Upgrade {
    type V = UpgradeView;

    closed spec fn view(&self) -> UpgradeView {
        UpgradeView {
            inf: self.inf@,
            want: self.want@,
            stage: self.stage,
            pkgs: pkgs_of(self.pkgs@),
            tried: self.tried as nat,
            gone: self.gone as nat,
        }
    }
}

impl Upgrade {
    /// The places are those of the older copies, and no more are gone than were tried.
    /// While copies are removed, one is on trial.
    pub closed spec fn wf(&self) -> bool {
        &&& self.stage == Stage::Retiring ==> self.stale@ == older(self@) && self.tried
            < self.stale@.len()
        &&& self.gone <= self.tried
    }

    /// Begin the work on the package `inf`, whose own file says the version `want`. Where
    /// it says none, nothing may be touched. The first step is to list.
    pub fn begin(inf: &str, want: Option<String>) -> (r: Result<Self, String>)
        ensures
            r is Ok <==> want is Some,
            r matches Ok(u) ==> u.wf() && u@ == begun(inf@, want->0@),
            r matches Err(e) ==> e@ == "no readable DriverVer in "@ + inf@,
    {
        match want {
            None => {
                let mut out: Vec<char> = chars_of("no readable DriverVer in ");
                put(&mut out, inf);
                Err(string_of(&out))
            },
            Some(w) => {
                let u = Upgrade {
                    inf: string_of(&chars_of(inf)),
                    want: w,
                    stage: Stage::Looking,
                    pkgs: Vec::new(),
                    stale: Vec::new(),
                    tried: 0,
                    gone: 0,
                };
                assert(u@ =~= begun(inf@, w@));
                Ok(u)
            },
        }
    }

    /// The stage that the work has reached.
    pub fn stage(&self) -> (r: Stage)
        ensures
            r == self@.stage,
    {
        self.stage
    }

    /// The next removal, or the end.
    fn retire(&mut self) -> (r: Step)
        requires
            old(self).stale@ == older(old(self)@),
            old(self).gone <= old(self).tried <= old(self).stale@.len(),
        ensures
            final(self).wf(),
            (final(self)@, r@) == retired(old(self)@),
    {
        let n: usize = self.stale.len();
        if self.tried < n {
            self.stage = Stage::Retiring;
            let listed: usize = self.pkgs.len();
            proof {
                assert(self@.pkgs.len() == listed);
                law_only_older_copies_go(
                    self@.pkgs,
                    self@.inf,
                    self@.want,
                    self@.pkgs.len() as int,
                );
            }
            let i: usize = self.stale[self.tried];
            assert(older(self@)[self.tried as int] == i);
            assert(self@.pkgs[i as int] == self.pkgs@[i as int]@);
            return Step::Remove(remove_packages(&self.pkgs[i]));
        }
        match leftover_error(self.inf.as_str(), self.want.as_str(), n, self.gone) {
            Some(e) => {
                self.stage = Stage::Failed;
                Step::Fail(e)
            },
            None => {
                self.stage = Stage::Done;
                Step::Done
            },
        }
    }

    /// Take what came of the last step, and say what to do next.
    pub fn next(&mut self, e: Event) -> (r: Step)
        requires
            old(self).wf(),
            comes_in(old(self)@.stage, e@),
        ensures
            final(self).wf(),
            (final(self)@, r@) == stepped(old(self)@, e@),
    {
        match e {
            Event::Listed(pkgs) => {
                let first = match self.stage {
                    Stage::Looking => true,
                    _ => false,
                };
                let live = if first {
                    match ensure_driver(Some(self.want.as_str()), &pkgs, self.inf.as_str()) {
                        DriverAction::Keep => true,
                        _ => false,
                    }
                } else {
                    version_live(&pkgs, self.inf.as_str(), self.want.as_str())
                };
                if live {
                    self.stale = stale_packages(&pkgs, self.inf.as_str(), self.want.as_str());
                    self.pkgs = pkgs;
                    self.tried = 0;
                    self.gone = 0;
                    self.retire()
                } else if first {
                    self.stage = Stage::Installing;
                    Step::Install
                } else {
                    self.stage = Stage::Failed;
                    Step::Fail(
                        string_of(
                            &chars_of("pnputil /add-driver did not populate the DriverStore"),
                        ),
                    )
                }
            },
            Event::Installed => {
                self.stage = Stage::Relisting;
                Step::List
            },
            Event::NotInstalled(why) => {
                self.stage = Stage::Failed;
                Step::Fail(why)
            },
            Event::Removed(gone) => {
                let n: usize = self.stale.len();
                assert(self.tried < n);
                self.tried = self.tried + 1;
                if gone {
                    self.gone = self.gone + 1;
                }
                self.retire()
            },
        }
    }
}

// ---- whole runs ---------------------------------------------------------------

/// The work after some events, from its begin.
pub open spec fn after(inf: Seq<char>, want: Seq<char>, es: Seq<EventView>) -> UpgradeView
    decreases es.len(),
{
    if es.len() == 0 {
        begun(inf, want)
    } else {
        stepped(after(inf, want, es.drop_last()), es.last()).0
    }
}

/// The step that follows event `n`.
pub open spec fn step_after(inf: Seq<char>, want: Seq<char>, es: Seq<EventView>, n: int) -> StepView {
    stepped(after(inf, want, es.take(n)), es[n]).1
}

/// The wanted version was there from the first, or an installation has run.
pub open spec fn secured(inf: Seq<char>, want: Seq<char>, es: Seq<EventView>) -> bool {
    ||| es.len() > 0 && (es[0] matches EventView::Listed(p) && is_live(p, inf, want))
    ||| es.contains(EventView::Installed)
}

/// Event `n` lists `pkgs`, in which the wanted version is live, and every event after it
/// tells of one removal, each of which took if `all` says so.
pub open spec fn listed_at(
    inf: Seq<char>,
    want: Seq<char>,
    es: Seq<EventView>,
    n: int,
    pkgs: Seq<PkgView>,
    all: bool,
) -> bool {
    &&& 0 <= n < es.len()
    &&& es[n] == EventView::Listed(pkgs)
    &&& is_live(pkgs, inf, want)
    &&& forall|k: int| n < k < es.len() ==> (#[trigger] es[k]) is Removed
    &&& all ==> forall|k: int| n < k < es.len() ==> #[trigger] es[k] == EventView::Removed(true)
}

/// What is so of the work after any events.
proof fn lemma_runs(inf: Seq<char>, want: Seq<char>, es: Seq<EventView>)
    ensures
        ({
            let u = after(inf, want, es);
            &&& u.inf == inf && u.want == want
            &&& u.gone <= u.tried
            &&& u.stage == Stage::Looking ==> es.len() == 0
            &&& u.stage == Stage::Relisting || u.stage == Stage::Retiring || u.stage == Stage::Done
                ==> secured(inf, want, es)
            &&& u.stage == Stage::Retiring ==> u.tried < older(u).len()
            &&& u.stage == Stage::Done ==> u.tried == older(u).len() && u.gone == u.tried
            &&& u.stage == Stage::Retiring || u.stage == Stage::Done ==> listed_at(
                inf,
                want,
                es,
                es.len() - 1 - u.tried,
                u.pkgs,
                u.gone == u.tried,
            )
        }),
    decreases es.len(),
{
    if es.len() > 0 {
        let before = es.drop_last();
        lemma_runs(inf, want, before);
        let v = after(inf, want, before);
        let u = after(inf, want, es);
        let e = es.last();
        assert(es =~= before.push(e));
        if secured(inf, want, before) {
            if before.contains(EventView::Installed) {
                let i = choose|i: int|
                    0 <= i < before.len() && before[i] == EventView::Installed;
                assert(es[i] == EventView::Installed);
            }
        }
        if comes_in(v.stage, e) {
            match e {
                EventView::Listed(pkgs) => {
                    if v.stage == Stage::Looking {
                        assert(es[0] == e);
                    }
                },
                EventView::Installed => {
                    assert(es[es.len() - 1] == EventView::Installed);
                },
                EventView::NotInstalled(_) => {},
                EventView::Removed(gone) => {
                    let n = before.len() - 1 - v.tried;
                    assert(listed_at(inf, want, before, n, v.pkgs, v.gone == v.tried));
                    assert(es[n] == before[n]);
                    assert forall|k: int| n < k < es.len() implies (#[trigger] es[k]) is Removed by {
                        if k < before.len() {
                            assert(es[k] == before[k]);
                        }
                    }
                    if u.gone == u.tried {
                        assert(gone && v.gone == v.tried);
                        assert forall|k: int| n < k < es.len() implies #[trigger] es[k]
                            == EventView::Removed(true) by {
                            if k < before.len() {
                                assert(es[k] == before[k]);
                            }
                        }
                    }
                },
            }
        }
    }
}

/// No package is removed before the wanted version is in: it was live when first looked,
/// or an installation has run; and in either case the last list shows it live.
pub proof fn law_nothing_goes_before_the_new_driver_is_in(
    inf: Seq<char>,
    want: Seq<char>,
    es: Seq<EventView>,
    n: int,
)
    requires
        0 <= n < es.len(),
        step_after(inf, want, es, n) is Remove,
    ensures
        secured(inf, want, es.take(n + 1)),
        exists|m: int, pkgs: Seq<PkgView>|
            m <= n && #[trigger] listed_at(inf, want, es.take(n + 1), m, pkgs, false),
{
    lemma_runs(inf, want, es.take(n + 1));
    assert(es.take(n + 1).drop_last() =~= es.take(n));
    let u = after(inf, want, es.take(n + 1));
    assert(listed_at(inf, want, es.take(n + 1), n - u.tried, u.pkgs, u.gone == u.tried));
    assert(listed_at(inf, want, es.take(n + 1), n - u.tried, u.pkgs, false));
}

/// Only packages of the name, and of another version than the wanted, are ever removed.
pub proof fn law_no_other_package_is_removed(
    inf: Seq<char>,
    want: Seq<char>,
    es: Seq<EventView>,
    n: int,
)
    requires
        0 <= n < es.len(),
        forall|k: int|
            0 <= k < es.len() ==> ((#[trigger] es[k]) matches EventView::Listed(p) ==> p.len()
                <= usize::MAX),
    ensures
        step_after(inf, want, es, n) matches StepView::Remove(args) ==> exists|
            m: int,
            pkgs: Seq<PkgView>,
            i: int,
        |
            0 <= m <= n && es[m] == EventView::Listed(pkgs) && 0 <= i < pkgs.len() && is_mine(
                #[trigger] pkgs[i],
                inf,
            ) && pkgs[i].version != want && args == #[trigger] removal_args(pkgs[i].published)
                && #[trigger] listed_at(inf, want, es.take(n + 1), m, pkgs, false),
{
    if step_after(inf, want, es, n) is Remove {
        let head = es.take(n + 1);
        lemma_runs(inf, want, head);
        assert(head.drop_last() =~= es.take(n));
        let u = after(inf, want, head);
        let m = n - u.tried;
        assert(listed_at(inf, want, head, m, u.pkgs, false));
        assert(es[m] == head[m]);
        law_only_older_copies_go(u.pkgs, inf, want, u.pkgs.len() as int);
        let i = older(u)[u.tried as int] as int;
        assert(is_mine(u.pkgs[i], inf));
        assert(step_after(inf, want, es, n) == StepView::Remove(
            removal_args(u.pkgs[i].published),
        ));
    }
}

/// Every package of the name that is of another version is among the older copies.
proof fn lemma_older_are_all(pkgs: Seq<PkgView>, inf: Seq<char>, want: Seq<char>, n: int, i: int)
    requires
        0 <= i < n <= pkgs.len(),
        pkgs.len() <= usize::MAX,
        is_mine(pkgs[i], inf),
        pkgs[i].version != want,
    ensures
        stale_below(pkgs, inf, want, n).contains(i as usize),
    decreases n,
{
    let all = stale_below(pkgs, inf, want, n);
    let rest = stale_below(pkgs, inf, want, n - 1);
    if i == n - 1 {
        assert(all[all.len() - 1] == i as usize);
    } else {
        lemma_older_are_all(pkgs, inf, want, n - 1, i);
        let k = choose|k: int| 0 <= k < rest.len() && rest[k] == i as usize;
        assert(all[k] == rest[k]);
    }
}

/// The work is done only where the wanted version is live and every other copy of the
/// name was reported removed: some list shows the wanted version; each older copy of that
/// list has its report, which says that it is gone; and all else of the name in that list
/// is of the wanted version.
pub proof fn law_done_leaves_only_the_wanted_version(
    inf: Seq<char>,
    want: Seq<char>,
    es: Seq<EventView>,
)
    requires
        after(inf, want, es).stage == Stage::Done,
        after(inf, want, es).pkgs.len() <= usize::MAX,
    ensures
        ({
            let u = after(inf, want, es);
            &&& listed_at(inf, want, es, es.len() - 1 - older(u).len(), u.pkgs, true)
            &&& forall|i: int|
                0 <= i < u.pkgs.len() && is_mine(#[trigger] u.pkgs[i], inf) ==> u.pkgs[i].version
                    == want || older(u).contains(i as usize)
        }),
{
    lemma_runs(inf, want, es);
    let u = after(inf, want, es);
    assert forall|i: int|
        0 <= i < u.pkgs.len() && is_mine(#[trigger] u.pkgs[i], inf) implies u.pkgs[i].version
        == want || older(u).contains(i as usize) by {
        if u.pkgs[i].version != want {
            lemma_older_are_all(u.pkgs, inf, want, u.pkgs.len() as int, i);
        }
    }
}

} // verus!
