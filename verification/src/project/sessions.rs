//! The sessions under a projects root.
//!
//! The name of a session's directory leads with the moment it was made, so that
//! the order of names is the order of time.

use vstd::prelude::*;
use vstd::string::StringExecFns;

use crate::console::mix::MixerState;
use crate::project::naming::file_slug;
use crate::project::naming::slug;
use crate::project::session::name_fault;
use crate::project::session::validate_name;
use crate::project::session::ProjectError;
use crate::project::session::SessionDir;
use crate::project::session::SCHEMA_VERSION;
use crate::project::takes::join_path;
use crate::project::takes::joined_path;
use crate::project::takes::Project;
use crate::seqs::views;
use crate::text::before;
use crate::text::before_is_an_order;
use crate::text::numeral;
use crate::text::push_numeral;
use crate::text::stands_before;
use crate::text::trimmed;

verus! {

/// What a session keeps on disk: its name and its console.
#[derive(Debug)]
pub struct ProjectManifest {
    pub schema_version: u32,
    pub name: String,
    pub created_at_unix: u64,
    pub mixer: MixerState,
}

/// The name of a new session's directory.
pub open spec fn session_name(created: u64, name: Seq<char>) -> Seq<char> {
    numeral(created as nat) + "-"@ + slug(name)
}

/// The manifest of a session as it is written.
pub fn manifest(name: &str, state: MixerState, created_at_unix: u64) -> (written: ProjectManifest)
    ensures
        written.schema_version == SCHEMA_VERSION,
        written.name@ == name@,
        written.created_at_unix == created_at_unix,
        written.mixer == state,
{
    ProjectManifest {
        schema_version: SCHEMA_VERSION,
        name: name.to_owned(),
        created_at_unix,
        mixer: state,
    }
}

/// A fresh piece of tape: a directory named for the moment, and the manifest to
/// put in it.
pub fn create_project(
    projects_root: &str,
    name: &str,
    state: MixerState,
    created: u64,
) -> (made: Result<(Project, ProjectManifest), ProjectError>)
    ensures
        match name_fault(name@) {
            None => made matches Ok((project, written)) && project.dir@ == joined_path(
                projects_root@,
                session_name(created, trimmed(name@)),
            ) && project.name@ == trimmed(name@) && written.schema_version == SCHEMA_VERSION
                && written.name@ == trimmed(name@) && written.created_at_unix == created
                && written.mixer == state,
            Some(fault) => made matches Err(ProjectError::BadName(text)) && text@ == fault,
        },
{
    match validate_name(name) {
        Ok(kept) => {
            let mut dir: String = String::new();
            push_numeral(&mut dir, created);
            dir.append("-");
            let tail: String = file_slug(kept);
            dir.append(tail.as_str());
            assert(dir@ =~= session_name(created, trimmed(name@)));
            let project: Project = Project {
                dir: join_path(projects_root, dir.as_str()),
                name: kept.to_owned(),
            };
            Ok((project, manifest(kept, state, created)))
        },
        Err(e) => Err(e),
    }
}

/// The project of a session, by the manifest found in it.
pub fn open_session(dir: &SessionDir, found: ProjectManifest) -> (opened: (
    Project,
    ProjectManifest,
))
    ensures
        opened.0.dir@ == dir.at(),
        opened.0.name@ == found.name@,
        opened.1 == found,
{
    let project: Project = Project { dir: dir.path().to_owned(), name: found.name.clone() };
    (project, found)
}

/// The manifest of a session under a new name. Everything else stays; the
/// directory is never renamed, since its name is what the session is known by.
pub fn rename_session(found: ProjectManifest, new_name: &str) -> (renamed: Result<
    ProjectManifest,
    ProjectError,
>)
    ensures
        match name_fault(new_name@) {
            None => renamed matches Ok(written) && written.schema_version == SCHEMA_VERSION
                && written.name@ == trimmed(new_name@) && written.created_at_unix
                == found.created_at_unix && written.mixer == found.mixer,
            Some(fault) => renamed matches Err(ProjectError::BadName(text)) && text@ == fault,
        },
{
    match validate_name(new_name) {
        Ok(kept) => Ok(manifest(kept, found.mixer, found.created_at_unix)),
        Err(e) => Err(e),
    }
}

/// What a list of sessions needs of a manifest.
#[derive(Debug)]
pub struct ManifestHead {
    pub name: String,
    pub created_at_unix: u64,
}

/// A directory under a projects root.
#[derive(Debug)]
pub struct FoundDir {
    /// The directory's name.
    pub id: String,
    /// What its manifest says, where it holds one that reads.
    pub manifest: Option<ManifestHead>,
    pub take_count: usize,
}

/// One session, as a browser lists it.
#[derive(Debug)]
pub struct SessionSummary {
    /// The directory's name, which a rename does not change.
    pub id: String,
    pub name: String,
    pub created_at_unix: u64,
    pub take_count: usize,
}

/// What a listed session says.
pub ghost struct SummaryView {
    pub id: Seq<char>,
    pub name: Seq<char>,
    pub created_at_unix: u64,
    pub take_count: usize,
}

impl View for SessionSummary {
    type V = SummaryView;

    open spec fn view(&self) -> SummaryView {
        SummaryView {
            id: self.id@,
            name: self.name@,
            created_at_unix: self.created_at_unix,
            take_count: self.take_count,
        }
    }
}

/// The sessions among directories: those whose manifest reads.
pub open spec fn sessions_in(found: Seq<FoundDir>) -> Seq<SummaryView>
    decreases found.len(),
{
    if found.len() == 0 {
        Seq::empty()
    } else {
        let earlier = sessions_in(found.drop_last());
        match found.last().manifest {
            Some(head) => earlier.push(
                SummaryView {
                    id: found.last().id@,
                    name: head.name@,
                    created_at_unix: head.created_at_unix,
                    take_count: found.last().take_count,
                },
            ),
            None => earlier,
        }
    }
}

/// No session stands in front of a newer one.
pub open spec fn newest_first(sessions: Seq<SummaryView>) -> bool {
    forall|i: int, j: int|
        0 <= i < j < sessions.len() ==> !before(
            (#[trigger] sessions[i]).id,
            (#[trigger] sessions[j]).id,
        )
}

/// Whether a list is that of the sessions among directories: the newest first,
/// and each as often as it was found.
pub open spec fn lists(found: Seq<FoundDir>, listed: Seq<SummaryView>) -> bool {
    &&& newest_first(listed)
    &&& listed.to_multiset() == sessions_in(found).to_multiset()
}

proof fn lemma_insert_multiset<T>(items: Seq<T>, at: int, item: T)
    requires
        0 <= at <= items.len(),
    ensures
        items.insert(at, item).to_multiset() == items.to_multiset().insert(item),
{
    let longer = items.insert(at, item);
    longer.to_multiset_ensures();
    assert(longer.remove(at) =~= items);
    assert(longer[at] == item);
    assert(longer.contains(item));
    assert(longer.to_multiset() =~= items.to_multiset().insert(item));
}

/// Puts a session in its place.
fn place(list: &mut Vec<SessionSummary>, session: SessionSummary)
    requires
        newest_first(views(old(list)@)),
    ensures
        newest_first(views(final(list)@)),
        views(final(list)@).to_multiset() == views(old(list)@).to_multiset().insert(session@),
{
    let ghost placed = views(list@);
    let mut at: usize = list.len();
    while at > 0 && stands_before(list[at - 1].id.as_str(), session.id.as_str())
        invariant
            placed == views(list@),
            newest_first(placed),
            at <= list@.len(),
            forall|k: int|
                at <= k < placed.len() ==> before((#[trigger] placed[k]).id, session.id@),
        decreases at,
    {
        at = at - 1;
        assert(placed[at as int] == list@[at as int]@);
    }
    list.insert(at, session);
    proof {
        let now = views(list@);
        assert(now =~= placed.insert(at as int, session@));
        lemma_insert_multiset(placed, at as int, session@);
        assert(at > 0 ==> !before(placed[at - 1].id, session.id@));
        assert forall|i: int, j: int| 0 <= i < j < now.len() implies !before(
            (#[trigger] now[i]).id,
            (#[trigger] now[j]).id,
        ) by {
            if i == at {
                assert(now[j] == placed[j - 1]);
                before_is_an_order(placed[j - 1].id, session.id@, session.id@);
            } else if j == at {
                if i < at - 1 {
                    assert(!before(placed[i].id, placed[at - 1].id));
                    before_is_an_order(placed[i].id, session.id@, placed[at - 1].id);
                    before_is_an_order(session.id@, placed[at - 1].id, placed[i].id);
                    before_is_an_order(placed[at - 1].id, session.id@, placed[i].id);
                    before_is_an_order(placed[i].id, placed[at - 1].id, session.id@);
                }
            } else {
                let p = if i < at { i } else { i - 1 };
                let q = if j < at { j } else { j - 1 };
                assert(!before(placed[p].id, placed[q].id));
            }
        }
    }
}

/// Every session that reads, the newest first.
pub fn list_sessions(found: Vec<FoundDir>) -> (sessions: Vec<SessionSummary>)
    ensures
        lists(found@, views(sessions@)),
{
    let ghost all = found@;
    let mut rest: Vec<FoundDir> = found;
    let mut sessions: Vec<SessionSummary> = Vec::new();
    proof {
        assert(views(sessions@) =~= Seq::<SummaryView>::empty());
        Seq::<SummaryView>::empty().to_multiset_ensures();
        assert(sessions_in(rest@).to_multiset().add(Seq::<SummaryView>::empty().to_multiset())
            =~= sessions_in(all).to_multiset());
    }
    while rest.len() > 0
        invariant
            newest_first(views(sessions@)),
            sessions_in(rest@).to_multiset().add(views(sessions@).to_multiset()) == sessions_in(
                all,
            ).to_multiset(),
        decreases rest.len(),
    {
        let ghost before_pop = rest@;
        let ghost placed = views(sessions@).to_multiset();
        if let Some(dir) = rest.pop() {
            assert(rest@ =~= before_pop.drop_last());
            assert(before_pop.last() == dir);
            if let Some(head) = dir.manifest {
                let session: SessionSummary = SessionSummary {
                    id: dir.id,
                    name: head.name,
                    created_at_unix: head.created_at_unix,
                    take_count: dir.take_count,
                };
                proof {
                    sessions_in(rest@).to_multiset_ensures();
                    assert(sessions_in(before_pop) == sessions_in(rest@).push(session@));
                    assert(sessions_in(before_pop).to_multiset().add(placed) =~= sessions_in(
                        rest@,
                    ).to_multiset().add(placed.insert(session@)));
                }
                place(&mut sessions, session);
            }
        }
    }
    proof {
        assert(sessions_in(rest@) =~= Seq::empty());
        Seq::<SummaryView>::empty().to_multiset_ensures();
        assert(sessions_in(rest@).to_multiset().add(views(sessions@).to_multiset()) =~= views(
            sessions@,
        ).to_multiset());
    }
    sessions
}

/// No directory holds a manifest that reads.
pub open spec fn none_reads(found: Seq<FoundDir>) -> bool {
    forall|k: int| 0 <= k < found.len() ==> (#[trigger] found[k]).manifest is None
}

/// Whether the directory at `i` is the newest session among directories.
pub open spec fn is_latest(found: Seq<FoundDir>, i: int) -> bool {
    &&& 0 <= i < found.len()
    &&& found[i].manifest is Some
    &&& forall|k: int|
        0 <= k < found.len() && (#[trigger] found[k]).manifest is Some ==> !before(
            found[i].id@,
            found[k].id@,
        )
}

/// Where among directories the newest session stands, if there is any.
pub fn load_latest(found: &Vec<FoundDir>) -> (latest: Option<usize>)
    ensures
        match latest {
            Some(i) => is_latest(found@, i as int),
            None => none_reads(found@),
        },
{
    let mut latest: Option<usize> = None;
    let mut i: usize = 0;
    while i < found.len()
        invariant
            i <= found@.len(),
            match latest {
                Some(at) => at < i && found@[at as int].manifest is Some && forall|k: int|
                    0 <= k < i && (#[trigger] found@[k]).manifest is Some ==> !before(
                        found@[at as int].id@,
                        found@[k].id@,
                    ),
                None => forall|k: int| 0 <= k < i ==> (#[trigger] found@[k]).manifest is None,
            },
        decreases found.len() - i,
    {
        if found[i].manifest.is_some() {
            proof {
                before_is_an_order(found@[i as int].id@, found@[i as int].id@, found@[i as int].id@);
            }
            match latest {
                Some(at) => {
                    if stands_before(found[at].id.as_str(), found[i].id.as_str()) {
                        proof {
                            assert forall|k: int|
                                0 <= k < i + 1 && (#[trigger] found@[k]).manifest is Some implies !before(
                                found@[i as int].id@,
                                found@[k].id@,
                            ) by {
                                before_is_an_order(
                                    found@[at as int].id@,
                                    found@[i as int].id@,
                                    found@[k].id@,
                                );
                            }
                        }
                        latest = Some(i);
                    }
                },
                None => {
                    latest = Some(i);
                },
            }
        }
        i = i + 1;
    }
    latest
}

proof fn lemma_listed(found: Seq<FoundDir>, i: int)
    requires
        0 <= i < found.len(),
        found[i].manifest is Some,
    ensures
        exists|k: int|
            0 <= k < sessions_in(found).len() && (#[trigger] sessions_in(found)[k]).id
                == found[i].id@,
    decreases found.len(),
{
    let fewer = found.drop_last();
    let earlier = sessions_in(fewer);
    if i == found.len() - 1 {
        assert(sessions_in(found)[earlier.len() as int].id == found[i].id@);
    } else {
        assert(fewer[i] == found[i]);
        lemma_listed(fewer, i);
        let k = choose|k: int| 0 <= k < earlier.len() && (#[trigger] earlier[k]).id == found[i].id@;
        assert(sessions_in(found)[k] == earlier[k]);
    }
}

proof fn lemma_found(found: Seq<FoundDir>, k: int)
    requires
        0 <= k < sessions_in(found).len(),
    ensures
        exists|i: int|
            0 <= i < found.len() && (#[trigger] found[i]).manifest is Some && found[i].id@
                == sessions_in(found)[k].id,
    decreases found.len(),
{
    let fewer = found.drop_last();
    let earlier = sessions_in(fewer);
    if k < earlier.len() {
        lemma_found(fewer, k);
        let i = choose|i: int|
            0 <= i < fewer.len() && (#[trigger] fewer[i]).manifest is Some && fewer[i].id@
                == earlier[k].id;
        assert(found[i] == fewer[i]);
        assert(sessions_in(found)[k] == earlier[k]);
    } else {
        assert(found[found.len() - 1].id@ == sessions_in(found)[k].id);
    }
}

/// The head of the list is the session that would be opened as the latest, so
/// that a browser and the daemon agree on what is current.
pub proof fn the_head_of_the_list_is_the_latest(
    found: Seq<FoundDir>,
    listed: Seq<SummaryView>,
    i: int,
)
    requires
        lists(found, listed),
        is_latest(found, i),
    ensures
        listed.len() > 0,
        listed[0].id == found[i].id@,
{
    let all = sessions_in(found);
    lemma_listed(found, i);
    let k = choose|k: int| 0 <= k < all.len() && (#[trigger] all[k]).id == found[i].id@;
    all.to_multiset_ensures();
    listed.to_multiset_ensures();
    assert(all.contains(all[k]));
    assert(all.to_multiset().count(all[k]) > 0);
    assert(listed.to_multiset().count(all[k]) > 0);
    assert(listed.contains(all[k]));
    let p = choose|p: int| 0 <= p < listed.len() && listed[p] == all[k];
    assert(listed.contains(listed[0]));
    assert(listed.to_multiset().count(listed[0]) > 0);
    assert(all.to_multiset().count(listed[0]) > 0);
    assert(all.contains(listed[0]));
    let q = choose|q: int| 0 <= q < all.len() && all[q] == listed[0];
    lemma_found(found, q);
    let j = choose|j: int|
        0 <= j < found.len() && (#[trigger] found[j]).manifest is Some && found[j].id@ == all[q].id;
    before_is_an_order(listed[0].id, found[i].id@, listed[0].id);
    if p > 0 {
        assert(!before(listed[0].id, listed[p].id));
    }
    assert(!before(found[i].id@, found[j].id@));
}

/// A directory whose manifest is gone is listed by nobody and opened as the
/// latest by nobody.
pub proof fn without_a_manifest_there_is_no_session(found: Seq<FoundDir>, i: int)
    requires
        0 <= i < found.len(),
        found[i].manifest is None,
    ensures
        sessions_in(found) == sessions_in(found.remove(i)),
        !is_latest(found, i),
    decreases found.len(),
{
    let fewer = found.drop_last();
    if i < found.len() - 1 {
        assert(fewer[i] == found[i]);
        without_a_manifest_there_is_no_session(fewer, i);
        assert(found.remove(i).drop_last() =~= fewer.remove(i));
        assert(found.remove(i).last() == found.last());
    } else {
        assert(found.remove(i) =~= fewer);
    }
}

} // verus!
