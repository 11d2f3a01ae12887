//! Paths in the bytes of the file system.

use vstd::prelude::*;
use vstd::utf8::encode_utf8;

verus! {

/// The byte `/`.
pub const SLASH: u8 = 47;

/// The byte `.`.
pub const DOT: u8 = 46;

/// Where the last component of a path ends: separators at the end, and `.`
/// components behind a separator, belong to no component.
pub open spec fn component_end(path: Seq<u8>) -> nat
    decreases path.len(),
{
    if path.len() > 0 && path.last() == SLASH {
        component_end(path.drop_last())
    } else if path.len() >= 2 && path.last() == DOT && path[path.len() - 2] == SLASH {
        component_end(path.drop_last())
    } else {
        path.len()
    }
}

/// Where the text behind the last separator starts.
pub open spec fn component_start(path: Seq<u8>) -> nat
    decreases path.len(),
{
    if path.len() == 0 || path.last() == SLASH {
        path.len()
    } else {
        component_start(path.drop_last())
    }
}

/// The last component of a path.
pub open spec fn last_component(path: Seq<u8>) -> Seq<u8> {
    let trimmed = path.take(component_end(path) as int);
    trimmed.skip(component_start(trimmed) as int)
}

/// The path names a file: its last component is there and is neither `.` nor `..`.
pub open spec fn names_file(path: Seq<u8>) -> bool {
    let name = last_component(path);
    name.len() > 0 && name != seq![DOT] && name != seq![DOT, DOT]
}

/// Length of a filename without its extension: up to the last dot, unless that
/// dot is the first character or there is none.
pub open spec fn stem_len(name: Seq<u8>) -> nat {
    match name.index_of_last(DOT) {
        Some(dot) => if dot > 0 {
            dot as nat
        } else {
            name.len()
        },
        None => name.len(),
    }
}

/// A byte with ASCII capitals made small.
pub open spec fn lower(c: u8) -> u8 {
    if 65 <= c <= 90 {
        (c + 32) as u8
    } else {
        c
    }
}

/// The filename has the extension `wav`, in any mix of capitals and small letters.
pub open spec fn has_wav_extension(name: Seq<u8>) -> bool {
    let stem = stem_len(name) as int;
    &&& name.len() == stem + 4
    &&& lower(name[stem + 1]) == 119
    &&& lower(name[stem + 2]) == 97
    &&& lower(name[stem + 3]) == 118
}

/// The path with the extension of its filename replaced by, or extended with,
/// `.wav`, unless it is there already or there is no filename.
pub open spec fn wav_path(path: Seq<u8>) -> Seq<u8> {
    let name = last_component(path);
    if !names_file(path) || has_wav_extension(name) {
        path
    } else {
        let start = component_end(path) - name.len();
        path.take(start + stem_len(name)) + seq![DOT, 119u8, 97u8, 118u8]
    }
}

/// Where a path ends without the separators and `.` components behind its last
/// component; the separator at the root stays.
pub open spec fn trimmed_end(path: Seq<u8>) -> nat {
    if component_end(path) == 0 && path.len() > 0 && path[0] == SLASH {
        1
    } else {
        component_end(path)
    }
}

/// A path without what is behind its last component.
pub open spec fn trimmed(path: Seq<u8>) -> Seq<u8> {
    path.take(trimmed_end(path) as int)
}

/// The folder of a path: the path up to its last component, without the separators in
/// between. A path without any component has none.
pub open spec fn parent_path(path: Seq<u8>) -> Option<Seq<u8>> {
    let name = last_component(path);
    if name.len() == 0 {
        None
    } else {
        Some(trimmed(path.take(component_end(path) - name.len())))
    }
}

/// The path of `name` in `folder`. A name that starts at the root stands for itself.
pub open spec fn in_folder(folder: Seq<u8>, name: Seq<u8>) -> Seq<u8> {
    if name.len() > 0 && name[0] == SLASH {
        name
    } else if folder.len() > 0 && folder.last() != SLASH {
        folder.push(SLASH) + name
    } else {
        folder + name
    }
}

proof fn lemma_component_end(path: Seq<u8>)
    ensures
        component_end(path) <= path.len(),
    decreases path.len(),
{
    if path.len() > 0 {
        lemma_component_end(path.drop_last());
    }
}

proof fn lemma_component_start(path: Seq<u8>)
    ensures
        component_start(path) <= path.len(),
        forall|i: int| component_start(path) <= i < path.len() ==> path[i] != SLASH,
        component_start(path) > 0 ==> path[component_start(path) - 1] == SLASH,
    decreases path.len(),
{
    if path.len() > 0 {
        let rest = path.drop_last();
        lemma_component_start(rest);
        assert(forall|i: int| 0 <= i < rest.len() ==> rest[i] == path[i]);
    }
}

proof fn lemma_component_start_at(path: Seq<u8>, start: int)
    requires
        0 <= start <= path.len(),
        forall|i: int| start <= i < path.len() ==> path[i] != SLASH,
        start > 0 ==> path[start - 1] == SLASH,
    ensures
        component_start(path) == start,
{
    lemma_component_start(path);
}

/// The filename of a path is a run without separators that stands at the path's
/// start or behind a separator.
proof fn lemma_last_component(path: Seq<u8>)
    ensures
        component_end(path) <= path.len(),
        last_component(path).len() <= component_end(path),
        last_component(path) == path.subrange(
            component_end(path) - last_component(path).len(),
            component_end(path) as int,
        ),
        forall|i: int| 0 <= i < last_component(path).len() ==> last_component(path)[i] != SLASH,
        component_end(path) > last_component(path).len() ==> path[component_end(path)
            - last_component(path).len() - 1] == SLASH,
{
    lemma_component_end(path);
    let trimmed = path.take(component_end(path) as int);
    lemma_component_start(trimmed);
    let start = component_start(trimmed) as int;
    assert(last_component(path) =~= path.subrange(start, component_end(path) as int));
}

/// A filename whose extension was replaced has the extension `wav`.
proof fn lemma_renamed(name: Seq<u8>)
    requires
        name.len() > 0,
    ensures
        0 < stem_len(name) <= name.len(),
        stem_len(name.take(stem_len(name) as int) + seq![DOT, 119u8, 97u8, 118u8]) == stem_len(name),
        has_wav_extension(name.take(stem_len(name) as int) + seq![DOT, 119u8, 97u8, 118u8]),
{
    name.index_of_last_ensures(DOT);
    let stem = stem_len(name) as int;
    let renamed = name.take(stem) + seq![DOT, 119u8, 97u8, 118u8];
    renamed.index_of_last_ensures(DOT);
    assert(renamed[stem] == DOT);
    assert(renamed[stem + 1] == 119 && renamed[stem + 2] == 97 && renamed[stem + 3] == 118);
    let dot = renamed.index_of_last(DOT)->0;
    assert(dot == stem);
}

/// Replacing what follows `keep` by text without separators replaces the end of
/// the last component.
proof fn lemma_component_replaced(path: Seq<u8>, folder: int, keep: int, tail: Seq<u8>)
    requires
        0 <= folder <= keep <= path.len(),
        forall|i: int| folder <= i < keep ==> path[i] != SLASH,
        folder > 0 ==> path[folder - 1] == SLASH,
        tail.len() > 0,
        forall|i: int| 0 <= i < tail.len() ==> tail[i] != SLASH,
        tail.last() != DOT,
    ensures
        component_end(path.take(keep) + tail) == keep + tail.len(),
        last_component(path.take(keep) + tail) == path.subrange(folder, keep) + tail,
{
    let r = path.take(keep) + tail;
    assert(r.last() == tail.last());
    assert(r.take(r.len() as int) =~= r);
    assert forall|i: int| folder <= i < r.len() implies r[i] != SLASH by {
        if i < keep {
            assert(r[i] == path[i]);
        } else {
            assert(r[i] == tail[i - keep]);
        }
    }
    if folder > 0 {
        assert(r[folder - 1] == path[folder - 1]);
    }
    lemma_component_start_at(r, folder);
    assert(r.skip(folder) =~= path.subrange(folder, keep) + tail);
}

/// Whatever path was chosen, if it names a file then the path that is written to
/// names a file with the extension `wav`, in the same folder.
pub proof fn wav_path_names_wav_file(path: Seq<u8>)
    requires
        names_file(path),
    ensures
        names_file(wav_path(path)),
        has_wav_extension(last_component(wav_path(path))),
        ({
            let folder = component_end(path) - last_component(path).len();
            &&& component_end(wav_path(path)) - last_component(wav_path(path)).len() == folder
            &&& wav_path(path).take(folder) == path.take(folder)
        }),
{
    let name = last_component(path);
    let folder = component_end(path) - name.len();
    lemma_last_component(path);
    if !has_wav_extension(name) {
        let stem = stem_len(name) as int;
        let tail = seq![DOT, 119u8, 97u8, 118u8];
        lemma_renamed(name);
        assert forall|i: int| folder <= i < folder + stem implies path[i] != SLASH by {
            assert(path[i] == name[i - folder]);
        }
        lemma_component_replaced(path, folder, folder + stem, tail);
        assert(path.subrange(folder, folder + stem) =~= name.take(stem));
        assert(wav_path(path).take(folder) =~= path.take(folder));
    }
}

/// A path that was completed once is not changed again.
pub proof fn wav_path_is_stable(path: Seq<u8>)
    ensures
        wav_path(wav_path(path)) == wav_path(path),
{
    if names_file(path) {
        wav_path_names_wav_file(path);
    }
}

/// Completing the extension keeps the folder.
pub proof fn wav_path_keeps_folder(path: Seq<u8>)
    ensures
        names_file(path) ==> parent_path(wav_path(path)) == parent_path(path),
        !names_file(path) ==> wav_path(path) == path,
{
    if names_file(path) {
        let start = component_end(path) - last_component(path).len();
        wav_path_names_wav_file(path);
        lemma_last_component(path);
        lemma_last_component(wav_path(path));
        assert(wav_path(path).take(start) == path.take(start));
    }
}

/// A file in a folder lies in that folder, under its name.
pub proof fn file_lies_in_folder(folder: Seq<u8>, name: Seq<u8>)
    requires
        name.len() > 0,
        name != seq![DOT],
        forall|i: int| 0 <= i < name.len() ==> name[i] != SLASH,
    ensures
        last_component(in_folder(folder, name)) == name,
        parent_path(in_folder(folder, name)) == Some(trimmed(folder)),
{
    let path = in_folder(folder, name);
    let start = path.len() - name.len();
    assert(path.skip(start) =~= name);
    assert(path.take(path.len() as int) =~= path);
    assert(path.last() == name.last());
    if name.len() == 1 {
        assert(name =~= seq![name[0]]);
    } else {
        assert(path[path.len() - 2] == name[name.len() - 2]);
    }
    assert(component_end(path) == path.len());
    assert forall|i: int| start <= i < path.len() implies path[i] != SLASH by {
        assert(path[i] == name[i - start]);
    }
    lemma_component_start_at(path, start);
    let front = path.take(start);
    if folder.len() > 0 && folder.last() != SLASH {
        assert(front =~= folder.push(SLASH));
        assert(front.drop_last() =~= folder);
        assert(component_end(front) == component_end(folder));
        lemma_component_end(folder);
        assert(front[0] == folder[0]);
        assert(trimmed(front) =~= trimmed(folder));
    } else {
        assert(front =~= folder);
    }
}

/// End of the last component of the first `len` bytes.
fn find_component_end(path: &Vec<u8>, len: usize) -> (end: usize)
    requires
        len <= path@.len(),
    ensures
        end == component_end(path@.take(len as int)),
        end <= len,
{
    let mut end: usize = len;
    while end > 0 && (path[end - 1] == SLASH || (end >= 2 && path[end - 1] == DOT && path[end - 2]
        == SLASH))
        invariant
            end <= len <= path@.len(),
            component_end(path@.take(end as int)) == component_end(path@.take(len as int)),
        decreases end,
    {
        assert(path@.take(end as int).drop_last() =~= path@.take(end - 1));
        end = end - 1;
    }
    end
}

fn find_component_start(path: &Vec<u8>, end: usize) -> (start: usize)
    requires
        end <= path@.len(),
    ensures
        start == component_start(path@.take(end as int)),
{
    let mut start: usize = end;
    while start > 0 && path[start - 1] != SLASH
        invariant
            start <= end <= path@.len(),
            component_start(path@.take(start as int)) == component_start(path@.take(end as int)),
        decreases start,
    {
        assert(path@.take(start as int).drop_last() =~= path@.take(start - 1));
        start = start - 1;
    }
    start
}

/// Length of the stem of the filename at `start .. end`.
fn find_stem_len(path: &Vec<u8>, start: usize, end: usize) -> (len: usize)
    requires
        start <= end <= path@.len(),
    ensures
        len == stem_len(path@.subrange(start as int, end as int)),
{
    let ghost name = path@.subrange(start as int, end as int);
    proof {
        name.index_of_last_ensures(DOT);
    }
    let mut dot: usize = end;
    while dot > start
        invariant
            start <= dot <= end <= path@.len(),
            name == path@.subrange(start as int, end as int),
            forall|i: int| dot - start <= i < name.len() ==> name[i] != DOT,
        decreases dot,
    {
        dot = dot - 1;
        if path[dot] == DOT {
            assert(name[dot - start] == DOT);
            proof {
                name.index_of_last_ensures(DOT);
            }
            if dot > start {
                return dot - start;
            } else {
                return end - start;
            }
        }
        assert(name[dot - start] != DOT);
    }
    end - start
}

fn lower_case(c: u8) -> (l: u8)
    ensures
        l == lower(c),
{
    if 65 <= c && c <= 90 {
        c + 32
    } else {
        c
    }
}

/// Ensures the chosen path, in the bytes of the file system, ends in `.wav`
/// (dialogs do not always add it).
#[verifier::spinoff_prover]
pub fn with_wav_extension(path: Vec<u8>) -> (r: Vec<u8>)
    ensures
        r@ == wav_path(path@),
{
    assert(path@.take(path@.len() as int) =~= path@);
    let end: usize = find_component_end(&path, path.len());
    let start: usize = find_component_start(&path, end);
    let ghost trimmed = path@.take(end as int);
    let ghost name = path@.subrange(start as int, end as int);
    proof {
        lemma_component_start(trimmed);
        assert(last_component(path@) =~= name);
    }
    let len: usize = end - start;
    if len == 0 || (len == 1 && path[start] == DOT) || (len == 2 && path[start] == DOT && path[start
        + 1] == DOT) {
        proof {
            assert(len == 1 ==> name =~= seq![DOT]);
            assert(len == 2 ==> name =~= seq![DOT, DOT]);
            assert(!names_file(path@));
        }
        return path;
    }
    proof {
        assert(len == 1 ==> name[0] == path@[start as int]);
        assert(len == 2 ==> name[0] == path@[start as int] && name[1] == path@[start + 1]);
        assert(names_file(path@));
    }
    let stem: usize = find_stem_len(&path, start, end);
    proof {
        name.index_of_last_ensures(DOT);
    }
    if len - stem == 4 && lower_case(path[start + stem + 1]) == 119 && lower_case(
        path[start + stem + 2],
    ) == 97 && lower_case(path[start + stem + 3]) == 118 {
        return path;
    }
    let mut r: Vec<u8> = path;
    assert(wav_path(path@) == path@.take(start + stem) + seq![DOT, 119u8, 97u8, 118u8]) by {
        assert(last_component(path@) == name);
        assert(!has_wav_extension(name));
    }
    r.truncate(start + stem);
    r.push(DOT);
    r.push(119);
    r.push(97);
    r.push(118);
    assert(r@ =~= wav_path(path@));
    r
}

/// The folder of a path, in the bytes of the file system.
pub fn parent_folder(path: &Vec<u8>) -> (folder: Option<Vec<u8>>)
    ensures
        match folder {
            Some(bytes) => parent_path(path@) == Some(bytes@),
            None => parent_path(path@) is None,
        },
{
    assert(path@.take(path@.len() as int) =~= path@);
    let end: usize = find_component_end(path, path.len());
    let start: usize = find_component_start(path, end);
    proof {
        lemma_component_start(path@.take(end as int));
        assert(last_component(path@).len() == end - start);
    }
    if start == end {
        return None;
    }
    let rest: usize = find_component_end(path, start);
    let keep: usize = if rest == 0 && start > 0 && path[0] == SLASH { 1 } else { rest };
    let ghost front = path@.take(start as int);
    assert(keep == trimmed_end(front));
    let folder = first_bytes(path, keep);
    assert(folder@ =~= trimmed(front));
    Some(folder)
}

/// A copy of the first `len` bytes.
fn first_bytes(bytes: &Vec<u8>, len: usize) -> (copy: Vec<u8>)
    requires
        len <= bytes@.len(),
    ensures
        copy@ == bytes@.take(len as int),
{
    let mut copy: Vec<u8> = Vec::with_capacity(len);
    let mut i: usize = 0;
    while i < len
        invariant
            i <= len <= bytes@.len(),
            copy@ == bytes@.take(i as int),
        decreases len - i,
    {
        copy.push(bytes[i]);
        i = i + 1;
        assert(copy@ =~= bytes@.take(i as int));
    }
    copy
}

/// The path of the file `name` in `folder`, in the bytes of the file system.
pub fn file_in_folder(folder: &Vec<u8>, name: &String) -> (path: Vec<u8>)
    ensures
        path@ == in_folder(folder@, encode_utf8(name@)),
{
    let tail = name.as_str().as_bytes();
    let len: usize = folder.len();
    let rooted = tail.len() > 0 && tail[0] == SLASH;
    let mut path = first_bytes(folder, if rooted { 0 } else { len });
    if !rooted && len > 0 && folder[len - 1] != SLASH {
        path.push(SLASH);
    }
    path.extend_from_slice(tail);
    assert(path@ =~= in_folder(folder@, encode_utf8(name@)));
    path
}

/// Whether the byte at `i` is a separator, or a `.` that a separator precedes.
spec fn idle(path: Seq<u8>, i: int) -> bool {
    path[i] == 47 || (path[i] == 46 && i > 0 && path[i - 1] == 47)
}

proof fn lemma_idle_tail(path: Seq<u8>)
    ensures
        component_end(path) <= path.len(),
        forall|i: int| component_end(path) <= i < path.len() ==> idle(path, i),
        component_end(path) > 0 ==> !idle(path, component_end(path) - 1),
    decreases path.len(),
{
    if path.len() > 0 {
        let rest = path.drop_last();
        lemma_idle_tail(rest);
        assert(forall|i: int| 0 <= i < rest.len() ==> rest[i] == path[i]);
        assert(forall|i: int| 0 <= i < rest.len() ==> idle(rest, i) == idle(path, i));
    }
}

/// The last component is the run without separators, between one or the start of the path
/// and an end behind which there are only separators and `.` components.
pub proof fn last_component_is_last(path: Seq<u8>)
    ensures
        ({
            let end = component_end(path) as int;
            let name = last_component(path);
            let start = end - name.len();
            &&& 0 <= start <= end <= path.len()
            &&& name == path.subrange(start, end)
            &&& forall|i: int| start <= i < end ==> path[i] != 47
            &&& start > 0 ==> path[start - 1] == 47
            &&& forall|i: int|
                end <= i < path.len() ==> #[trigger] path[i] == 47 || (path[i] == 46 && i > 0 && path[i - 1]
                    == 47)
            &&& end > 0 ==> path[end - 1] != 47
            &&& end > 1 && path[end - 1] == 46 ==> path[end - 2] != 47
        }),
{
    let end = component_end(path) as int;
    let name = last_component(path);
    let start = end - name.len();
    lemma_last_component(path);
    lemma_idle_tail(path);
    assert forall|i: int| start <= i < end implies path[i] != 47 by {
        assert(path[i] == name[i - start]);
    }
    assert forall|i: int| end <= i < path.len() implies #[trigger] path[i] == 47 || (path[i] == 46 && i > 0
        && path[i - 1] == 47) by {
        assert(idle(path, i));
    }
}

/// A filename has the extension `wav` exactly when it ends in a dot and those three
/// letters, small or capital, and something stands in front.
pub proof fn wav_extension_is_dot_wav(name: Seq<u8>)
    ensures
        has_wav_extension(name) <==> {
            let n = name.len() as int;
            &&& n > 4
            &&& name[n - 4] == 46
            &&& name[n - 3] == 119 || name[n - 3] == 87
            &&& name[n - 2] == 97 || name[n - 2] == 65
            &&& name[n - 1] == 118 || name[n - 1] == 86
        },
{
    let n = name.len() as int;
    name.index_of_last_ensures(DOT);
    if n > 4 && name[n - 4] == 46 && (name[n - 3] == 119 || name[n - 3] == 87) && (name[n - 2] == 97
        || name[n - 2] == 65) && (name[n - 1] == 118 || name[n - 1] == 86) {
        assert(name.contains(DOT));
        let dot = name.index_of_last(DOT)->0;
        assert(dot == n - 4);
    }
    if has_wav_extension(name) {
        let stem = stem_len(name) as int;
        assert(stem == n - 4);
        assert(name.index_of_last(DOT) is Some);
    }
}

/// The name that is written keeps the chosen stem in full: all in front of the last dot,
/// which stands at `k`, or the whole name if there is no dot behind its first character.
/// The folder is the chosen one.
pub proof fn written_name_keeps_the_stem(path: Seq<u8>, k: int)
    requires
        names_file(path),
        !has_wav_extension(last_component(path)),
        ({
            let name = last_component(path);
            &&& 0 < k <= name.len()
            &&& k < name.len() ==> name[k] == 46
            &&& forall|i: int| k < i < name.len() ==> name[i] != 46
            &&& k == name.len() ==> forall|i: int| 0 < i < name.len() ==> name[i] != 46
        }),
    ensures
        ({
            let name = last_component(path);
            let start = component_end(path) - name.len();
            &&& last_component(wav_path(path)) == name.take(k) + seq![46u8, 119u8, 97u8, 118u8]
            &&& wav_path(path) == path.take(start + k) + seq![46u8, 119u8, 97u8, 118u8]
        }),
{
    let name = last_component(path);
    let start = component_end(path) - name.len();
    let tail = seq![46u8, 119u8, 97u8, 118u8];
    name.index_of_last_ensures(DOT);
    if k < name.len() {
        assert(name.contains(DOT));
    }
    assert(stem_len(name) == k);
    lemma_last_component(path);
    assert forall|i: int| start <= i < start + k implies path[i] != SLASH by {
        assert(path[i] == name[i - start]);
    }
    lemma_component_replaced(path, start, start + k, tail);
    assert(path.subrange(start, start + k) =~= name.take(k));
}

/// A path that names no file is left as it is, and so is one whose name has the extension;
/// a path names a file if its last component is there, and is no `.` and no `..`.
pub proof fn other_paths_stay(path: Seq<u8>)
    ensures
        ({
            let name = last_component(path);
            let file = name.len() > 2 || (name.len() == 1 && name[0] != 46) || (name.len() == 2 && !(
            name[0] == 46 && name[1] == 46));
            &&& names_file(path) <==> file
            &&& !file || has_wav_extension(name) ==> wav_path(path) == path
        }),
{
    let name = last_component(path);
    if name.len() == 1 {
        assert(name[0] == 46 ==> name =~= seq![DOT]);
    }
    if name.len() == 2 {
        assert(name[0] == 46 && name[1] == 46 ==> name =~= seq![DOT, DOT]);
    }
}

/// The folder of a path is the path up to its last component, and all in between are
/// separators and `.` components; it ends in neither, unless it is the root. There is none
/// exactly when there is no component.
pub proof fn folder_is_all_in_front(path: Seq<u8>)
    ensures
        parent_path(path) is None <==> last_component(path).len() == 0,
        parent_path(path) matches Some(folder) ==> {
            let start = component_end(path) - last_component(path).len();
            let n = folder.len() as int;
            &&& n <= start
            &&& folder == path.take(n)
            &&& forall|i: int|
                n <= i < start ==> #[trigger] path[i] == 47 || (path[i] == 46 && i > 0 && path[i - 1] == 47)
            &&& n == 0 && start > 0 ==> path[0] != 47
            &&& n == 1 ==> path[0] != 47 || forall|i: int|
                1 <= i < start ==> #[trigger] path[i] == 47 || (path[i] == 46 && path[i - 1] == 47)
            &&& n > 1 ==> path[n - 1] != 47 && !(path[n - 1] == 46 && path[n - 2] == 47)
        },
{
    lemma_last_component(path);
    let start = component_end(path) - last_component(path).len();
    let front = path.take(start);
    lemma_idle_tail(front);
    if let Some(folder) = parent_path(path) {
        let n = folder.len() as int;
        assert(folder =~= path.take(n));
        assert forall|i: int| n <= i < start implies #[trigger] path[i] == 47 || (path[i] == 46 && i > 0
            && path[i - 1] == 47) by {
            assert(idle(front, i));
        }
    }
}

/// A name goes behind the folder, with one separator in between unless the folder is empty
/// or ends in one; a name that starts with a separator stands alone.
pub proof fn name_goes_behind_folder(folder: Seq<u8>, name: Seq<u8>)
    ensures
        name.len() > 0 && name[0] == 47 ==> in_folder(folder, name) == name,
        name.len() == 0 || name[0] != 47 ==> {
            &&& folder.len() == 0 ==> in_folder(folder, name) == name
            &&& folder.len() > 0 && folder.last() == 47 ==> in_folder(folder, name) == folder + name
            &&& folder.len() > 0 && folder.last() != 47 ==> in_folder(folder, name) == folder
                + seq![47u8] + name
        },
{
    assert(in_folder(folder, name) =~= name || folder.len() > 0);
    assert(folder.push(SLASH) =~= folder + seq![47u8]);
}

} // verus!
