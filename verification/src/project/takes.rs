//! The takes of a session.

use vstd::prelude::*;
use vstd::string::StringExecFns;

use crate::project::format::RecordFormat;
use crate::project::naming::a_padded_number_reads_back;
use crate::project::naming::padded;
use crate::project::naming::push_padded;
use crate::project::order::sort;
use crate::project::order::sorts;
use crate::project::order::Ranked;
use crate::text::chars_of;
use crate::text::number_of;
use crate::text::read_number;

verus! {

/// One recorded track of a take.
#[derive(Debug, Clone)]
pub struct TakeTrackInfo {
    pub file: String,
    pub channels: u16,
    pub frames: u64,
    pub dropped_samples: u64,
    /// The strip that was recorded. Early takes do not say.
    pub strip_id: Option<u32>,
}

/// One MIDI sidecar of a take.
#[derive(Debug, Clone)]
pub struct TakeMidiTrackInfo {
    pub file: String,
    pub name: String,
    pub events: u64,
    pub dropped_events: u64,
}

/// One recorded take, as its manifest tells it.
#[derive(Debug, Clone)]
pub struct TakeInfo {
    pub schema_version: u32,
    pub started_at_unix: u64,
    pub sample_rate: u32,
    pub format: RecordFormat,
    pub damaged: bool,
    pub tracks: Vec<TakeTrackInfo>,
    pub midi_tracks: Vec<TakeMidiTrackInfo>,
    /// Not in the manifest: the directory's name tells it.
    pub take: u32,
}

/// The newest take comes first.
impl Ranked for TakeInfo {
    open spec fn rank(&self) -> int {
        u32::MAX - self.take
    }

    fn ranked(&self) -> (rank: u64) {
        (0xFFFF_FFFF - self.take) as u64
    }
}

/// The path of a part of a directory.
pub open spec fn joined_path(dir: Seq<char>, part: Seq<char>) -> Seq<char> {
    if dir.len() == 0 || dir.last() == '/' {
        dir + part
    } else {
        dir.push('/') + part
    }
}

/// The path of a part of a directory.
pub fn join_path(dir: &str, part: &str) -> (path: String)
    ensures
        path@ == joined_path(dir@, part@),
{
    let chars: Vec<char> = chars_of(dir);
    let mut path: String = dir.to_owned();
    if chars.len() > 0 && chars[chars.len() - 1] != '/' {
        path.push('/');
    }
    path.append(part);
    path
}

/// The name of a take's directory.
pub open spec fn take_name(take: nat) -> Seq<char> {
    "take-"@ + padded(take, 3)
}

/// The name of a take's directory.
pub fn name_of_take(take: u32) -> (name: String)
    ensures
        name@ == take_name(take as nat),
{
    let mut name: String = "take-".to_owned();
    push_padded(&mut name, take as u64, 3);
    name
}

/// The number of the take that a directory's name tells, if it tells one.
pub open spec fn take_number(name: Seq<char>) -> Option<u32> {
    if name.len() < 5 || name.take(5) != "take-"@ {
        None
    } else {
        match number_of(name.skip(5)) {
            Some(n) => if n <= u32::MAX {
                Some(n as u32)
            } else {
                None
            },
            None => None,
        }
    }
}

/// The number of the take that a directory's name tells, if it tells one.
pub fn number_of_take(name: &str) -> (number: Option<u32>)
    ensures
        number == take_number(name@),
{
    let chars: Vec<char> = chars_of(name);
    let length: usize = chars.len();
    proof {
        reveal_strlit("take-");
    }
    if length < 5 {
        return None;
    }
    if chars[0] != 't' || chars[1] != 'a' || chars[2] != 'k' || chars[3] != 'e' || chars[4] != '-' {
        assert(name@.take(5)[0] == chars@[0]);
        assert(name@.take(5)[1] == chars@[1]);
        assert(name@.take(5)[2] == chars@[2]);
        assert(name@.take(5)[3] == chars@[3]);
        assert(name@.take(5)[4] == chars@[4]);
        return None;
    }
    assert(name@.take(5) =~= "take-"@);
    assert(chars@.subrange(5, length as int) =~= name@.skip(5));
    match read_number(&chars, 5, length) {
        Some(n) => if n <= 0xFFFF_FFFF {
            Some(n as u32)
        } else {
            None
        },
        None => None,
    }
}

/// A take's directory tells its number.
pub proof fn a_take_name_tells_its_number(take: u32)
    ensures
        take_number(take_name(take as nat)) == Some(take),
{
    reveal_strlit("take-");
    a_padded_number_reads_back(take as nat, 3);
    let name = take_name(take as nat);
    assert(name.take(5) =~= "take-"@);
    assert(name.skip(5) =~= padded(take as nat, 3));
}

/// A session that is open.
#[derive(Debug)]
pub struct Project {
    pub dir: String,
    pub name: String,
}

impl Project {
    /// Where the takes lie.
    pub fn takes_dir(&self) -> (dir: String)
        ensures
            dir@ == joined_path(self.dir@, "takes"@),
    {
        join_path(self.dir.as_str(), "takes")
    }

    /// Where one take lies. The number is written out here, so that no text of a
    /// caller ever becomes part of the path.
    pub fn take_dir(&self, take: u32) -> (dir: String)
        ensures
            dir@ == joined_path(joined_path(self.dir@, "takes"@), take_name(take as nat)),
    {
        let takes: String = self.takes_dir();
        let name: String = name_of_take(take);
        join_path(takes.as_str(), name.as_str())
    }

    /// The number of the next take: one past the highest that the names in the
    /// takes directory tell, 1 where they tell none. Gaps are not filled.
    pub fn next_take(&self, names: &Vec<String>) -> (next: u32)
        requires
            forall|i: int|
                0 <= i < names@.len() ==> take_number((#[trigger] names@[i])@) != Some(u32::MAX),
        ensures
            forall|i: int|
                0 <= i < names@.len() ==> (take_number((#[trigger] names@[i])@) matches Some(n) ==> n
                    < next),
            next == 1 || exists|i: int|
                0 <= i < names@.len() && take_number((#[trigger] names@[i])@) == Some(
                    (next - 1) as u32,
                ),
            next > 0,
            next > 1 || forall|i: int|
                0 <= i < names@.len() ==> (take_number((#[trigger] names@[i])@) matches Some(n) ==> n
                    == 0),
    {
        let mut next: u32 = 1;
        let mut i: usize = 0;
        while i < names.len()
            invariant
                i <= names@.len(),
                next > 0,
                forall|k: int|
                    0 <= k < names@.len() ==> take_number((#[trigger] names@[k])@) != Some(
                        u32::MAX,
                    ),
                forall|k: int|
                    0 <= k < i ==> (take_number((#[trigger] names@[k])@) matches Some(n) ==> n
                        < next),
                next == 1 || exists|k: int|
                    0 <= k < i && take_number((#[trigger] names@[k])@) == Some((next - 1) as u32),
            decreases names.len() - i,
        {
            let ghost before = next;
            assert(take_number(names@[i as int]@) != Some(u32::MAX));
            if let Some(n) = number_of_take(names[i].as_str()) {
                if n >= next {
                    next = n + 1;
                    assert(take_number(names@[i as int]@) == Some((next - 1) as u32));
                }
            }
            i = i + 1;
        }
        next
    }
}

/// The takes that can be read: those whose directory tells a number and holds a
/// manifest that reads.
pub open spec fn readable_takes(entries: Seq<(String, Option<TakeInfo>)>) -> Seq<TakeInfo>
    decreases entries.len(),
{
    if entries.len() == 0 {
        Seq::empty()
    } else {
        let earlier = readable_takes(entries.drop_last());
        match (take_number(entries.last().0@), entries.last().1) {
            (Some(n), Some(info)) => earlier.push(TakeInfo { take: n, ..info }),
            _ => earlier,
        }
    }
}

/// All finished takes, the newest first. An entry is a name in the takes
/// directory and what could be read of the manifest in it; a take that is still
/// being recorded, or was torn, has none and is left out.
pub fn list_takes(entries: Vec<(String, Option<TakeInfo>)>) -> (takes: Vec<TakeInfo>)
    ensures
        sorts(readable_takes(entries@), takes@),
{
    let ghost all = entries@;
    let mut rest: Vec<(String, Option<TakeInfo>)> = entries;
    let mut flipped: Vec<TakeInfo> = Vec::new();
    assert(all.take(all.len() as int) =~= all);
    assert(readable_takes(all) =~= readable_takes(rest@) + flipped@.reverse());
    while rest.len() > 0
        invariant
            readable_takes(all) == readable_takes(rest@) + flipped@.reverse(),
        decreases rest.len(),
    {
        let ghost before = rest@;
        let ghost done = flipped@;
        if let Some((name, manifest)) = rest.pop() {
            assert(rest@ =~= before.drop_last());
            assert(before.last() == (name, manifest));
            if let (Some(n), Some(info)) = (number_of_take(name.as_str()), manifest) {
                let mut info: TakeInfo = info;
                info.take = n;
                flipped.push(info);
                assert(flipped@.reverse() =~= seq![info] + done.reverse());
                assert(readable_takes(before) + done.reverse() =~= readable_takes(rest@)
                    + flipped@.reverse());
            }
        }
    }
    assert(rest@.len() == 0);
    assert(readable_takes(rest@) =~= Seq::empty());
    assert(readable_takes(all) =~= flipped@.reverse());
    let mut takes: Vec<TakeInfo> = Vec::new();
    let ghost kept = flipped@.reverse();
    assert(kept.take(0) =~= takes@);
    while flipped.len() > 0
        invariant
            flipped@.len() + takes@.len() == kept.len(),
            takes@ == kept.take(takes@.len() as int),
            flipped@ == kept.skip(takes@.len() as int).reverse(),
        decreases flipped.len(),
    {
        let ghost n = takes@.len() as int;
        if let Some(info) = flipped.pop() {
            assert(info == kept[n]);
            takes.push(info);
            assert(takes@ =~= kept.take(n + 1));
            assert(flipped@ =~= kept.skip(n + 1).reverse());
        }
    }
    assert(takes@ =~= kept);
    sort(takes)
}

/// The takes that a directory listing counts: those that hold a manifest,
/// readable or not.
pub fn count_takes(manifests: &Vec<bool>) -> (count: usize)
    ensures
        count == manifests@.filter(|there: bool| there).len(),
{
    let mut count: usize = 0;
    let mut i: usize = 0;
    assert(manifests@.take(0).filter(|there: bool| there).len() == 0) by {
        reveal(Seq::filter);
    }
    while i < manifests.len()
        invariant
            i <= manifests@.len(),
            count <= i,
            count == manifests@.take(i as int).filter(|there: bool| there).len(),
        decreases manifests.len() - i,
    {
        proof {
            reveal(Seq::filter);
            assert(manifests@.take(i + 1).drop_last() =~= manifests@.take(i as int));
        }
        if manifests[i] {
            count = count + 1;
        }
        i = i + 1;
    }
    assert(manifests@.take(i as int) =~= manifests@);
    count
}

} // verus!
