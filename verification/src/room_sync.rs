//! The steps of writing one room state into its database. Each step is outside
//! work; what comes next, and what counts as done, depends on how it went.

use vstd::prelude::*;

use crate::engine::{JobView, MatJob};
use crate::fold_laws::is_branch;
use crate::keys::hex_text;
use crate::materialise::{
    forks_for, forks_view, known_after, last_header, last_written, may_hold, meta_doc, next_plan, room_db_name,
    with_fork, with_written, BranchPlan, ForkView, Materialiser, MaterialiserView, NewBranch, PlanView,
};
use crate::materialise_laws::{
    after_plan, can_be_planned, lands, law_nothing_is_mirrored_by_nothing, law_writes_land,
    law_writes_leave_nothing_else, no_documents, no_other_messages, no_other_nodes, Documents,
};
use crate::op::MAIN_BRANCH;
use crate::text_map::{lemma_listing_is_unique, lists_keys, sorted_keys};

verus! {

/// A step of outside work.
#[derive(Debug)]
pub enum Step {
    /// Connect to the database server.
    Connect,
    /// Make the database, with its schema.
    Prepare,
    /// Make a branch. Where it cannot be made, the rest goes on: it may be there
    /// already.
    Fork(NewBranch),
    /// Make the writes for a branch; there may be none to make.
    Write { name: String, plan: Option<BranchPlan> },
    /// All is written.
    Done,
    /// The last step failed, and the rest is given up.
    Failed,
}

/// What a [`Step`] stands for.
pub enum StepView {
    Connect,
    Prepare,
    Fork(ForkView),
    Write { name: Seq<char>, plan: Option<PlanView> },
    Done,
    Failed,
}

/// The writes of a branch, as far as there are any.
pub open spec fn plan_view(plan: Option<BranchPlan>) -> Option<PlanView> {
    match plan {
        Some(p) => Some(p@),
        None => None,
    }
}

impl View for Step {
    type V = StepView;

    open spec fn view(&self) -> StepView {
        match *self {
            Step::Connect => StepView::Connect,
            Step::Prepare => StepView::Prepare,
            Step::Fork(f) => StepView::Fork(f@),
            Step::Write { name, plan } => StepView::Write { name: name@, plan: plan_view(plan) },
            Step::Done => StepView::Done,
            Step::Failed => StepView::Failed,
        }
    }
}

/// The step that was asked for last.
#[derive(Clone, Copy, Debug, PartialEq, Eq)]
pub enum Asked {
    Nothing,
    Connect,
    Prepare,
    Fork(usize),
    Write(usize),
    End,
}

/// The writing of one room state, under way.
pub struct RoomSync {
    db: String,
    job: MatJob,
    asked: Asked,
    forks: Vec<NewBranch>,
}

/// What a [`RoomSync`] stands for.
pub struct SyncView {
    pub db: Seq<char>,
    pub job: JobView,
    pub asked: Asked,
    pub forks: Seq<ForkView>,
}

impl View for RoomSync {
    type V = SyncView;

    closed spec fn view(&self) -> SyncView {
        SyncView { db: self.db@, job: self.job@, asked: self.asked, forks: forks_view(self.forks@) }
    }
}

/// The branches of the room state, in the order of their names.
pub open spec fn names(s: SyncView) -> Seq<Seq<char>> {
    sorted_keys(s.job.state.branches)
}

/// Asking for the `i`th branch to be written, or for nothing more.
pub open spec fn to_write(s: SyncView, mat: MaterialiserView, i: int) -> (SyncView, MaterialiserView, StepView) {
    if i < names(s).len() {
        let name = names(s)[i];
        let branch = s.job.state.branches[name];
        (
            SyncView { asked: Asked::Write(i as usize), ..s },
            mat,
            StepView::Write { name, plan: next_plan(mat, s.db, name, branch, s.job) },
        )
    } else {
        (SyncView { asked: Asked::End, ..s }, mat, StepView::Done)
    }
}

/// Asking for the `i`th missing branch to be made, or going on to the writes.
pub open spec fn to_fork(s: SyncView, mat: MaterialiserView, i: int) -> (SyncView, MaterialiserView, StepView) {
    if i < s.forks.len() {
        (SyncView { asked: Asked::Fork(i as usize), ..s }, mat, StepView::Fork(s.forks[i]))
    } else {
        to_write(s, mat, 0)
    }
}

/// Going on to the branches, once the database is ready.
pub open spec fn to_branches(s: SyncView, mat: MaterialiserView, org: Seq<char>) -> (
    SyncView,
    MaterialiserView,
    StepView,
) {
    to_fork(
        SyncView { forks: forks_for(org, s.db, s.job.state, mat.known_branches), ..s },
        MaterialiserView { known_branches: known_after(mat.known_branches, s.db, s.job.state), ..mat },
        0,
    )
}

/// What comes after the last step, by how it went.
pub open spec fn advanced(s: SyncView, mat: MaterialiserView, org: Seq<char>, ok: bool) -> (
    SyncView,
    MaterialiserView,
    StepView,
) {
    let failed = (SyncView { asked: Asked::End, ..s }, mat, StepView::Failed);
    match s.asked {
        Asked::Nothing => (SyncView { asked: Asked::Connect, ..s }, mat, StepView::Connect),
        Asked::Connect => if !ok {
            failed
        } else if mat.ensured_dbs.contains(s.db) {
            to_branches(s, mat, org)
        } else {
            (SyncView { asked: Asked::Prepare, ..s }, mat, StepView::Prepare)
        },
        Asked::Prepare => if !ok {
            failed
        } else {
            to_branches(
                s,
                MaterialiserView {
                    ensured_dbs: mat.ensured_dbs.insert(s.db),
                    known_branches: mat.known_branches.insert((s.db, MAIN_BRANCH@)),
                    ..mat
                },
                org,
            )
        },
        Asked::Fork(i) => {
            let fork = s.forks[i as int];
            to_fork(
                s,
                if ok {
                    with_fork(mat, s.db, fork.parent, fork.name)
                } else {
                    mat
                },
                i + 1,
            )
        },
        Asked::Write(i) => if !ok {
            failed
        } else {
            let name = names(s)[i as int];
            to_write(s, with_written(mat, s.db, name, s.job.state.branches[name], s.job), i + 1)
        },
        Asked::End => (s, mat, StepView::Done),
    }
}

/// The places in the lists that a sync goes through are places in them.
pub open spec fn is_sync(s: SyncView) -> bool {
    &&& lists_keys(names(s), s.job.state.branches)
    &&& s.asked matches Asked::Fork(i) ==> i < s.forks.len()
    &&& s.asked matches Asked::Write(i) ==> i < names(s).len()
}

fn copy_fork(f: &NewBranch) -> (r: NewBranch)
    ensures
        r@ == f@,
{
    NewBranch { name: f.name.clone(), parent: f.parent.clone(), path: f.path.clone(), origin: f.origin.clone() }
}

impl RoomSync {
    #[verifier::type_invariant]
    spec fn in_bounds(self) -> bool {
        is_sync(self@)
    }

    /// The writing of a room state, before its first step.
    pub fn new(job: MatJob) -> (r: Self)
        ensures
            r@ == (SyncView {
                db: "room_"@ + hex_text(job@.room).take(16),
                job: job@,
                asked: Asked::Nothing,
                forks: Seq::empty(),
            }),
            is_sync(r@),
    {
        let db = room_db_name(&job.room);
        let n = job.state.branches.len();
        let r = RoomSync { db, job, asked: Asked::Nothing, forks: Vec::new() };
        proof {
            let keys = r.job.state.branches.keys_in_order();
            lemma_listing_is_unique(keys, names(r@), r@.job.state.branches);
            assert(r@.forks =~= Seq::empty());
        }
        r
    }

    /// The database that is written to.
    pub fn db(&self) -> (r: &str)
        ensures
            r@ == self@.db,
    {
        self.db.as_str()
    }

    /// The state that is written.
    pub fn job(&self) -> (r: &MatJob)
        ensures
            r@ == self@.job,
    {
        &self.job
    }

    /// The next step, by how the last one went. What was written without failure
    /// is noted as written, and a branch that was made as one that may hold what its
    /// parent may hold; nothing else is noted.
    pub fn advance(&mut self, mat: &mut Materialiser, org: &str, ok: bool) -> (r: Step)
        ensures
            is_sync(final(self)@),
            (final(self)@, final(mat)@, r@) == advanced(old(self)@, old(mat)@, org@, ok),
    {
        proof {
            use_type_invariant(&*self);
        }
        match self.asked {
            Asked::Nothing => {
                self.asked = Asked::Connect;
                Step::Connect
            },
            Asked::Connect => {
                if !ok {
                    self.asked = Asked::End;
                    Step::Failed
                } else if mat.is_ready(self.db.as_str()) {
                    self.begin_branches(mat, org)
                } else {
                    self.asked = Asked::Prepare;
                    Step::Prepare
                }
            },
            Asked::Prepare => {
                if !ok {
                    self.asked = Asked::End;
                    return Step::Failed;
                }
                mat.note_ready(self.db.as_str());
                self.begin_branches(mat, org)
            },
            Asked::Fork(i) => {
                let count = self.forks.len();
                assert(i < count);
                if ok {
                    let fork = &self.forks[i];
                    mat.note_forked(self.db.as_str(), fork.parent.as_str(), fork.name.as_str());
                }
                self.fork_from(mat, i + 1)
            },
            Asked::Write(i) => {
                if !ok {
                    self.asked = Asked::End;
                    return Step::Failed;
                }
                let n = self.job.state.branches.len();
                proof {
                    self.lemma_names();
                }
                let (name, branch) = self.job.state.branches.entry(i);
                mat.note_written(self.db.as_str(), name.as_str(), branch, &self.job);
                self.write_from(mat, i + 1)
            },
            Asked::End => Step::Done,
        }
    }

    proof fn lemma_names(&self)
        requires
            is_sync(self@),
            lists_keys(self.job.state.branches.keys_in_order(), self.job.state.branches@),
        ensures
            self.job.state.branches.keys_in_order() == names(self@),
    {
        lemma_listing_is_unique(
            self.job.state.branches.keys_in_order(),
            names(self@),
            self.job.state.branches@,
        );
    }

    fn begin_branches(&mut self, mat: &mut Materialiser, org: &str) -> (r: Step)
        ensures
            is_sync(final(self)@),
            (final(self)@, final(mat)@, r@) == to_branches(old(self)@, old(mat)@, org@),
    {
        proof {
            use_type_invariant(&*self);
        }
        let forks = mat.new_branches(org, self.db.as_str(), &self.job.state);
        self.asked = Asked::Nothing;
        self.forks = forks;
        self.fork_from(mat, 0)
    }

    fn fork_from(&mut self, mat: &mut Materialiser, i: usize) -> (r: Step)
        ensures
            is_sync(final(self)@),
            ({
                let (s, m, step) = to_fork(SyncView { asked: Asked::Nothing, ..old(self)@ }, old(mat)@, i as int);
                final(self)@ == s && final(mat)@ == m && r@ == step
            }),
    {
        proof {
            use_type_invariant(&*self);
        }
        if i < self.forks.len() {
            self.asked = Asked::Fork(i);
            Step::Fork(copy_fork(&self.forks[i]))
        } else {
            self.asked = Asked::Nothing;
            self.write_from(mat, 0)
        }
    }

    fn write_from(&mut self, mat: &mut Materialiser, i: usize) -> (r: Step)
        ensures
            is_sync(final(self)@),
            ({
                let (s, m, step) = to_write(SyncView { asked: Asked::Nothing, ..old(self)@ }, old(mat)@, i as int);
                final(self)@ == s && final(mat)@ == m && r@ == step
            }),
    {
        proof {
            use_type_invariant(&*self);
        }
        self.asked = Asked::Nothing;
        let n = self.job.state.branches.len();
        proof {
            self.lemma_names();
        }
        if i < n {
            self.asked = Asked::Write(i);
            let (name, branch) = self.job.state.branches.entry(i);
            let plan = mat.plan(self.db.as_str(), name.as_str(), branch, &self.job);
            Step::Write { name: name.clone(), plan }
        } else {
            self.asked = Asked::End;
            Step::Done
        }
    }
}

// --- laws --------------------------------------------------------------------------

/// A step that failed leaves what is known of the databases as it was.
pub proof fn law_failed_step_notes_nothing(s: SyncView, mat: MaterialiserView, org: Seq<char>)
    ensures
        advanced(s, mat, org, false).1 == mat,
{
}

/// The sync after `n` steps that all went well.
pub open spec fn ran(s: SyncView, mat: MaterialiserView, org: Seq<char>, n: nat) -> (
    SyncView,
    MaterialiserView,
    StepView,
)
    decreases n,
{
    if n <= 1 {
        advanced(s, mat, org, true)
    } else {
        let (s1, m1, _) = ran(s, mat, org, (n - 1) as nat);
        advanced(s1, m1, org, true)
    }
}

proof fn lemma_writes_run(s: SyncView, mat: MaterialiserView, org: Seq<char>, n: nat)
    requires
        is_sync(s),
        s.asked == Asked::Write(0),
        names(s).len() <= usize::MAX,
        1 <= n <= names(s).len(),
    ensures
        ({
            let (s1, m1, step) = ran(s, mat, org, n);
            &&& s1.db == s.db && s1.job == s.job && s1.forks == s.forks
            &&& n < names(s).len() ==> s1.asked == Asked::Write(n as usize)
            &&& n == names(s).len() ==> step == StepView::Done
            &&& forall|j: int|
                0 <= j < n ==> {
                    let name = #[trigger] names(s)[j];
                    let branch = s.job.state.branches[name];
                    &&& last_written(m1, s.db, name) == branch
                    &&& last_header(m1, s.db, name) == Some(meta_doc(s.job, name, branch))
                }
        }),
    decreases n,
{
    let all = names(s);
    if n > 1 {
        lemma_writes_run(s, mat, org, (n - 1) as nat);
        let (s0, m0, _) = ran(s, mat, org, (n - 1) as nat);
        let (s1, m1, _) = ran(s, mat, org, n);
        assert(names(s0) == all);
        assert forall|j: int| 0 <= j < n implies {
            let name = #[trigger] all[j];
            let branch = s.job.state.branches[name];
            &&& last_written(m1, s.db, name) == branch
            &&& last_header(m1, s.db, name) == Some(meta_doc(s.job, name, branch))
        } by {
            if j < n - 1 {
                assert(last_written(m0, s.db, all[j]) == s.job.state.branches[all[j]]);
            }
        }
    }
}

/// Once the branches are there, a sync without failures takes one step for each of
/// them and is done then; every branch is noted as written as the room has it, under
/// the header of the job.
pub proof fn law_sync_writes_every_branch(s: SyncView, mat: MaterialiserView, org: Seq<char>, name: Seq<char>)
    requires
        is_sync(s),
        s.asked == Asked::Write(0),
        names(s).len() <= usize::MAX,
        s.job.state.branches.contains_key(name),
    ensures
        ran(s, mat, org, names(s).len()).2 == StepView::Done,
        last_written(ran(s, mat, org, names(s).len()).1, s.db, name) == s.job.state.branches[name],
        last_header(ran(s, mat, org, names(s).len()).1, s.db, name) == Some(
            meta_doc(s.job, name, s.job.state.branches[name]),
        ),
{
    let all = names(s);
    assert(all.contains(name));
    let j = choose|j: int| 0 <= j < all.len() && all[j] == name;
    lemma_writes_run(s, mat, org, all.len());
    assert(last_written(ran(s, mat, org, all.len()).1, s.db, all[j]) == s.job.state.branches[all[j]]);
}

// --- what the database holds -------------------------------------------------------

/// Each branch of a database is as noted: it holds a document for all that was last
/// written of it, under the header that is noted, and documents of no items and
/// nodes but those that it may hold. `exact`: and none of other messages.
pub open spec fn agrees(server: Map<Seq<char>, Documents>, mat: MaterialiserView, db: Seq<char>, exact: bool) -> bool {
    &&& forall|name: Seq<char>| #[trigger]
        server.contains_key(name) ==> {
            &&& lands(server[name], last_written(mat, db, name))
            &&& no_other_nodes(server[name], may_hold(mat, db, name))
            &&& exact ==> no_other_messages(server[name], may_hold(mat, db, name))
            &&& last_header(mat, db, name) is Some ==> server[name].meta == last_header(mat, db, name)
        }
    &&& forall|name: Seq<char>| #[trigger] mat.written.contains_key((db, name)) ==> server.contains_key(name)
}

/// The branches of the database, once the step that was asked for last has been
/// carried out: a new database has an empty `main`, a fork starts with the
/// documents of its parent.
pub open spec fn carried_out(server: Map<Seq<char>, Documents>, s: SyncView, mat: MaterialiserView) -> Map<
    Seq<char>,
    Documents,
> {
    match s.asked {
        Asked::Prepare => if server.contains_key(MAIN_BRANCH@) {
            server
        } else {
            server.insert(MAIN_BRANCH@, no_documents())
        },
        Asked::Fork(i) => server.insert(s.forks[i as int].name, server[s.forks[i as int].parent]),
        Asked::Write(i) => {
            let name = names(s)[i as int];
            let plan = next_plan(mat, s.db, name, s.job.state.branches[name], s.job);
            server.insert(name, after_plan(server[name], plan))
        },
        _ => server,
    }
}

/// The branches that the last step needs are there: a fork is made of a branch
/// that is there, to one that is not; what is written is a branch that is there.
/// `exact`: and its chat goes on from what the branch may hold.
pub open spec fn can_be_carried_out(
    server: Map<Seq<char>, Documents>,
    s: SyncView,
    mat: MaterialiserView,
    exact: bool,
) -> bool {
    match s.asked {
        Asked::Fork(i) => server.contains_key(s.forks[i as int].parent) && !server.contains_key(
            s.forks[i as int].name,
        ),
        Asked::Write(i) => {
            let name = names(s)[i as int];
            let left = may_hold(mat, s.db, name);
            let next = s.job.state.branches[name];
            &&& server.contains_key(name)
            &&& is_branch(next, s.job.state.ops_applied)
            &&& can_be_planned(left, next)
            &&& exact ==> left.chat.is_prefix_of(next.chat)
        },
        _ => true,
    }
}

/// Through every step that is carried out as it was asked for, each branch of the
/// database is as noted. So, once a branch has been written, it holds a document for
/// every message, item and node of the branch of the room, and none of other items
/// and nodes; as long as chats only grow, none of other messages either, and the two
/// are the same.
pub proof fn law_steps_keep_the_database_as_noted(
    server: Map<Seq<char>, Documents>,
    s: SyncView,
    mat: MaterialiserView,
    org: Seq<char>,
    exact: bool,
)
    requires
        is_sync(s),
        agrees(server, mat, s.db, exact),
        can_be_carried_out(server, s, mat, exact),
    ensures
        agrees(carried_out(server, s, mat), advanced(s, mat, org, true).1, s.db, exact),
{
    let after = carried_out(server, s, mat);
    let noted = advanced(s, mat, org, true).1;
    match s.asked {
        Asked::Write(i) => {
            let name = names(s)[i as int];
            let branch = s.job.state.branches[name];
            let known = last_written(mat, s.db, name);
            let left = may_hold(mat, s.db, name);
            let header = last_header(mat, s.db, name);
            let ops = s.job.state.ops_applied;
            law_writes_land(server[name], known, left, header, branch, name, s.job, ops);
            law_writes_leave_nothing_else(server[name], known, left, header, branch, name, s.job, ops);
            assert(noted.written == with_written(mat, s.db, name, branch, s.job).written);
        },
        Asked::Fork(i) => {
            let fork = s.forks[i as int];
            assert(noted.written == with_fork(mat, s.db, fork.parent, fork.name).written);
        },
        _ => {
            law_nothing_is_mirrored_by_nothing();
            assert(noted.written == mat.written);
        },
    }
    assert forall|name: Seq<char>| #[trigger] noted.written.contains_key((s.db, name)) implies after.contains_key(
        name,
    ) by {
        assert(mat.written.contains_key((s.db, name)) || after.contains_key(name));
    }
}

} // verus!
