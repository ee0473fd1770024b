//! What a session may be called, and where it lies.
//!
//! A session is a directory directly under the projects root that holds a
//! manifest.

use vstd::prelude::*;
use vstd::string::StringExecFns;

use crate::text::char_is_control;
use crate::text::chars_of;
use crate::text::is_control;
use crate::text::same_text;
use crate::text::text_of;
use crate::text::trim;
use crate::text::trimmed;

verus! {

/// The version of the manifest's layout.
pub const SCHEMA_VERSION: u32 = 1;

/// The longest name a session may have, in characters.
pub const MAX_NAME: usize = 64;

/// Why something about a session was refused.
#[derive(Debug)]
pub enum ProjectError {
    Io(String),
    Parse(String),
    Serialize(String),
    BadName(&'static str),
    /// An id that is not one ordinary path component.
    BadId,
    /// The id leads outside the root, or to a directory without a manifest.
    NotASession,
    /// A session of that name is already there.
    Exists,
}

impl ProjectError {
    /// What the error says.
    pub open spec fn says(&self) -> Seq<char> {
        match *self {
            ProjectError::Io(text) => "io: "@ + text@,
            ProjectError::Parse(text) => "manifest: "@ + text@,
            ProjectError::Serialize(text) => "manifest: "@ + text@,
            ProjectError::BadName(text) => "name: "@ + text@,
            ProjectError::BadId => "not a session id"@,
            ProjectError::NotASession => "no session there"@,
            ProjectError::Exists => "a session of that name already exists"@,
        }
    }

    /// What the error says.
    pub fn to_string(&self) -> (text: String)
        ensures
            text@ == self.says(),
    {
        match self {
            ProjectError::Io(text) => after("io: ", text.as_str()),
            ProjectError::Parse(text) => after("manifest: ", text.as_str()),
            ProjectError::Serialize(text) => after("manifest: ", text.as_str()),
            ProjectError::BadName(text) => after("name: ", text),
            ProjectError::BadId => "not a session id".to_owned(),
            ProjectError::NotASession => "no session there".to_owned(),
            ProjectError::Exists => "a session of that name already exists".to_owned(),
        }
    }
}

fn after(label: &str, text: &str) -> (out: String)
    ensures
        out@ == label@ + text@,
{
    let mut out: String = label.to_owned();
    out.append(text);
    out
}

/// Whether a text holds a control character.
pub open spec fn has_control(text: Seq<char>) -> bool {
    exists|i: int| 0 <= i < text.len() && is_control(#[trigger] text[i])
}

/// What is wrong with a name, white space around it aside.
pub open spec fn name_fault(name: Seq<char>) -> Option<Seq<char>> {
    let kept = trimmed(name);
    if kept.len() == 0 {
        Some("name the session"@)
    } else if kept.len() > MAX_NAME {
        Some("at most 64 characters"@)
    } else if has_control(kept) {
        Some("one line, no control characters"@)
    } else {
        None
    }
}

fn find_control(chars: &Vec<char>) -> (found: bool)
    ensures
        found == has_control(chars@),
{
    let mut i: usize = 0;
    while i < chars.len()
        invariant
            i <= chars@.len(),
            forall|k: int| 0 <= k < i ==> !is_control(#[trigger] chars@[k]),
        decreases chars.len() - i,
    {
        if char_is_control(chars[i]) {
            assert(is_control(chars@[i as int]));
            return true;
        }
        i = i + 1;
    }
    false
}

/// A name without the white space around it: one line of 1 to 64 characters.
pub fn validate_name(name: &str) -> (valid: Result<&str, ProjectError>)
    ensures
        match name_fault(name@) {
            None => valid matches Ok(kept) && kept@ == trimmed(name@),
            Some(fault) => valid matches Err(ProjectError::BadName(text)) && text@ == fault,
        },
{
    let kept: &str = trim(name);
    let chars: Vec<char> = chars_of(kept);
    if chars.len() == 0 {
        return Err(ProjectError::BadName("name the session"));
    }
    if chars.len() > MAX_NAME {
        return Err(ProjectError::BadName("at most 64 characters"));
    }
    if find_control(&chars) {
        return Err(ProjectError::BadName("one line, no control characters"));
    }
    Ok(kept)
}

/// Whether a text is one ordinary path component: not empty, without a
/// separator, and neither of the two directories that every directory holds.
pub open spec fn is_component(text: Seq<char>) -> bool {
    text.len() > 0 && !text.contains('/') && text != "."@ && text != ".."@
}

/// Where the last separator of a path stands.
pub open spec fn last_slash(path: Seq<char>) -> int
    decreases path.len(),
{
    if path.len() == 0 {
        -1
    } else if path.last() == '/' {
        path.len() - 1
    } else {
        last_slash(path.drop_last())
    }
}

/// The directory that an absolute path without a trailing separator lies in.
/// The root lies in none.
pub open spec fn parent_of(path: Seq<char>) -> Option<Seq<char>> {
    let at = last_slash(path);
    if at < 0 || path.len() == 1 {
        None
    } else if at == 0 {
        Some(path.take(1))
    } else {
        Some(path.take(at))
    }
}

/// The last component of a path.
pub open spec fn last_component(path: Seq<char>) -> Seq<char> {
    path.skip(last_slash(path) + 1)
}

proof fn lemma_last_slash(path: Seq<char>)
    ensures
        -1 <= last_slash(path) < path.len(),
        last_slash(path) >= 0 ==> path[last_slash(path)] == '/',
        forall|i: int| last_slash(path) < i < path.len() ==> #[trigger] path[i] != '/',
    decreases path.len(),
{
    if path.len() > 0 && path.last() != '/' {
        let rest = path.drop_last();
        lemma_last_slash(rest);
        assert forall|i: int| last_slash(path) < i < path.len() implies #[trigger] path[i]
            != '/' by {
            if i < rest.len() {
                assert(rest[i] == path[i]);
            }
        }
    }
}

fn find_last_slash(chars: &Vec<char>) -> (at: Option<usize>)
    ensures
        match at {
            Some(i) => i == last_slash(chars@),
            None => last_slash(chars@) == -1,
        },
{
    let mut n: usize = chars.len();
    assert(chars@.take(n as int) =~= chars@);
    while n > 0
        invariant
            n <= chars@.len(),
            last_slash(chars@) == last_slash(chars@.take(n as int)),
        decreases n,
    {
        if chars[n - 1] == '/' {
            return Some(n - 1);
        }
        assert(chars@.take(n as int).drop_last() =~= chars@.take(n - 1));
        n = n - 1;
    }
    None
}

/// A directory that is known to be a session directly under a projects root.
#[derive(Debug)]
pub struct SessionDir {
    path: String,
}

impl SessionDir {
    /// Where the session lies.
    pub closed spec fn at(&self) -> Seq<char> {
        self.path@
    }

    /// Where the session lies.
    pub fn path(&self) -> (path: &str)
        ensures
            path@ == self.at(),
    {
        self.path.as_str()
    }

    /// The name of the directory, which is what a client holds.
    pub fn id(&self) -> (id: &str)
        ensures
            id@ == last_component(self.at()),
    {
        let chars: Vec<char> = chars_of(self.path.as_str());
        let text: &str = self.path.as_str();
        let end: usize = chars.len();
        proof {
            lemma_last_slash(self.path@);
        }
        let start: usize = match find_last_slash(&chars) {
            Some(at) => at + 1,
            None => 0,
        };
        let id: &str = text.substring_char(start, end);
        assert(id@ =~= last_component(self.path@));
        id
    }
}

/// Refuses an id that is not one ordinary path component.
pub fn check_id(id: &str) -> (checked: Result<(), ProjectError>)
    ensures
        match checked {
            Ok(_) => is_component(id@),
            Err(e) => e is BadId && !is_component(id@),
        },
{
    let chars: Vec<char> = chars_of(id);
    if chars.len() == 0 || same_text(id, ".") || same_text(id, "..") {
        return Err(ProjectError::BadId);
    }
    let mut i: usize = 0;
    while i < chars.len()
        invariant
            chars@ == id@,
            i <= chars@.len(),
            forall|k: int| 0 <= k < i ==> #[trigger] chars@[k] != '/',
        decreases chars.len() - i,
    {
        if chars[i] == '/' {
            assert(id@.contains(chars@[i as int]));
            return Err(ProjectError::BadId);
        }
        i = i + 1;
    }
    assert(!id@.contains('/'));
    Ok(())
}

fn lies_in(path: &str, root: &str) -> (lies: bool)
    ensures
        lies == (parent_of(path@) == Some(root@)),
{
    let chars: Vec<char> = chars_of(path);
    let end: usize = match find_last_slash(&chars) {
        Some(at) => at,
        None => {
            return false;
        },
    };
    proof {
        lemma_last_slash(path@);
    }
    if chars.len() == 1 {
        return false;
    }
    let parent: &str = path.substring_char(
        0,
        if end == 0 {
            1
        } else {
            end
        },
    );
    assert(parent@ =~= path@.take(if end == 0 { 1 } else { end as int }));
    same_text(parent, root)
}

/// Whether a directory is a session of a projects root: it is there, lies
/// directly under the root, and holds a manifest.
pub open spec fn is_session(
    root: Option<Seq<char>>,
    dir: Option<Seq<char>>,
    has_manifest: bool,
) -> bool {
    match (root, dir) {
        (Some(r), Some(d)) => has_manifest && parent_of(d) == Some(r),
        _ => false,
    }
}

/// What became of an id: a session, or the refusal.
///
/// `root` and `dir` are where the projects root and the id under it really lie,
/// links followed; none where they lie nowhere. `has_manifest` says whether a
/// manifest is there.
pub fn resolve(
    root: &Option<String>,
    dir: Option<String>,
    has_manifest: bool,
    id: &str,
) -> (resolved: Result<SessionDir, ProjectError>)
    ensures
        match resolved {
            Ok(session) => is_component(id@) && is_session(text_of(*root), text_of(dir), has_manifest)
                && text_of(dir) == Some(session.at()),
            Err(ProjectError::BadId) => !is_component(id@),
            Err(e) => e is NotASession && is_component(id@) && !is_session(
                text_of(*root),
                text_of(dir),
                has_manifest,
            ),
        },
{
    match check_id(id) {
        Ok(()) => {},
        Err(e) => {
            return Err(e);
        },
    }
    match (root, dir) {
        (Some(r), Some(d)) => {
            if has_manifest && lies_in(d.as_str(), r.as_str()) {
                Ok(SessionDir { path: d })
            } else {
                Err(ProjectError::NotASession)
            }
        },
        _ => Err(ProjectError::NotASession),
    }
}

/// What lies in a root is the root, a separator, and one component.
pub proof fn a_session_lies_directly_under_its_root(root: Seq<char>, dir: Seq<char>)
    requires
        parent_of(dir) == Some(root),
        dir[1] != '/',
    ensures
        !last_component(dir).contains('/'),
        dir == if root == seq!['/'] {
            root + last_component(dir)
        } else {
            root.push('/') + last_component(dir)
        },
{
    lemma_last_slash(dir);
    let at = last_slash(dir);
    let name = last_component(dir);
    if name.contains('/') {
        let i = choose|i: int| 0 <= i < name.len() && name[i] == '/';
        assert(dir[at + 1 + i] == '/');
    }
    if at == 0 {
        assert(root =~= seq!['/']);
        assert(dir =~= root + name);
    } else {
        assert(dir =~= root.push('/') + name);
        assert(root.len() == at);
    }
}

} // verus!
