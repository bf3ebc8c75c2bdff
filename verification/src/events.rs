//! Classifying filesystem notifications by the shape of their path.
//!
//! A path is text whose components are separated by `/`: the non-empty
//! pieces between separators, but for `.`, which stands for the directory
//! it is in. Only the last two components matter: the name of the entry and
//! the name of the directory that holds it.

use vstd::prelude::*;

verus! {

/// What the filesystem reported of a path.
#[derive(Clone, Copy, Debug, PartialEq, Eq, Structural)]
pub enum EventKind {
    /// The path appeared.
    Create,
    /// The content of the file at the path changed.
    Write,
    /// Anything else: a removal, a rename, a rescan.
    Other,
}

/// What a notification means to the timer.
#[derive(Clone, Copy, Debug, PartialEq, Eq, Structural)]
pub enum Classified {
    /// A world folder appeared directly under the saves folder.
    NewWorld,
    /// A player's stats file was written.
    StatsWritten,
    /// Nothing the timer cares about.
    Ignored,
}

/// The name of the folder, under Minecraft's own, that holds one folder for
/// each world.
pub const SAVES_FOLDER: &'static str = "saves";

/// The name of the folder, in a world's folder, that holds one stats file
/// for each player.
pub const STATS_FOLDER: &'static str = "stats";

/// The extension of a stats file.
pub const STATS_EXTENSION: &'static str = "json";

/// The index just past the last `sep` in `s`; zero where `s` holds none.
pub open spec fn after_last(s: Seq<char>, sep: char) -> int
    decreases s.len(),
{
    if s.len() == 0 {
        0
    } else if s.last() == sep {
        s.len() as int
    } else {
        after_last(s.drop_last(), sep)
    }
}

/// What follows the last `/` of a text, or all of it where it holds none.
pub open spec fn last_piece(s: Seq<char>) -> Seq<char> {
    s.subrange(after_last(s, '/'), s.len() as int)
}

/// Whether the path ends in a piece that is just `.`: a `.` at the very
/// start or right behind a separator.
pub open spec fn is_dot_piece_at_end(path: Seq<char>) -> bool {
    path.len() > 0 && path.last() == '.' && (path.len() == 1 || path[path.len() - 2] == '/')
}

/// The path up to the end of its last component. A component is a
/// non-empty piece between separators other than `.`; separators and `.`
/// pieces that follow the last one are left off. The result is empty where
/// the path has no component.
pub open spec fn up_to_last_component(path: Seq<char>) -> Seq<char>
    decreases path.len(),
{
    if path.len() == 0 {
        path
    } else if path.last() == '/' || is_dot_piece_at_end(path) {
        up_to_last_component(path.drop_last())
    } else {
        path
    }
}

/// The last component of a path; none where the path has no component.
pub open spec fn last_component(path: Seq<char>) -> Option<Seq<char>> {
    let whole = up_to_last_component(path);
    if whole.len() == 0 {
        None
    } else {
        Some(last_piece(whole))
    }
}

/// What stands before the last component of a path: the path of the
/// directory that holds the entry. None where the path has no component.
pub open spec fn parent(path: Seq<char>) -> Option<Seq<char>> {
    let whole = up_to_last_component(path);
    if whole.len() == 0 {
        None
    } else {
        Some(whole.subrange(0, after_last(whole, '/')))
    }
}

/// The name of the entry at `path`: its last component, and none where
/// that is `..` or the path has no component.
pub open spec fn file_name(path: Seq<char>) -> Option<Seq<char>> {
    match last_component(path) {
        Some(name) => if name == ".."@ {
            None
        } else {
            Some(name)
        },
        None => None,
    }
}

/// The name of the directory that holds the entry at `path`: the component
/// before the last, and none where that is `..` or there is no such
/// component.
pub open spec fn parent_name(path: Seq<char>) -> Option<Seq<char>> {
    match parent(path) {
        Some(dir) => file_name(dir),
        None => None,
    }
}

/// What follows the last `.` of the entry's name. A name without a `.`, or
/// with its only `.` in front, has no extension, and neither has a path
/// without a name.
pub open spec fn extension(path: Seq<char>) -> Option<Seq<char>> {
    match file_name(path) {
        Some(name) => {
            let k = after_last(name, '.');
            if k <= 1 {
                None
            } else {
                Some(name.subrange(k, name.len() as int))
            }
        },
        None => None,
    }
}

/// A stats file has the extension `json` and lies in a directory named
/// `stats`.
pub open spec fn is_stats_path(path: Seq<char>) -> bool {
    extension(path) == Some(STATS_EXTENSION@) && parent_name(path) == Some(STATS_FOLDER@)
}

/// A world folder lies in a directory named `saves`.
pub open spec fn is_world_path(path: Seq<char>) -> bool {
    parent_name(path) == Some(SAVES_FOLDER@)
}

/// The meaning of a notification: a write to a stats file, the creation of
/// a world folder, or nothing.
pub open spec fn classified(kind: EventKind, path: Seq<char>) -> Classified {
    match kind {
        EventKind::Write => if is_stats_path(path) {
            Classified::StatsWritten
        } else {
            Classified::Ignored
        },
        EventKind::Create => if is_world_path(path) {
            Classified::NewWorld
        } else {
            Classified::Ignored
        },
        EventKind::Other => Classified::Ignored,
    }
}

/// `after_last` points into the text, just behind a separator or at the
/// start, and no separator follows it.
pub proof fn lemma_after_last(s: Seq<char>, sep: char)
    ensures
        0 <= after_last(s, sep) <= s.len(),
        after_last(s, sep) > 0 ==> s[after_last(s, sep) - 1] == sep,
        forall|j: int| after_last(s, sep) <= j < s.len() ==> #[trigger] s[j] != sep,
    decreases s.len(),
{
    if s.len() > 0 && s.last() != sep {
        let front = s.drop_last();
        lemma_after_last(front, sep);
        assert forall|j: int| after_last(s, sep) <= j < s.len() implies #[trigger] s[j] != sep by {
            if j < front.len() {
                assert(front[j] != sep);
            }
        }
    }
}

/// `after_last` is the only index that stands just behind a separator, or
/// at the start, with no separator after it.
pub proof fn lemma_after_last_unique(s: Seq<char>, sep: char, k: int)
    requires
        0 <= k <= s.len(),
        k > 0 ==> s[k - 1] == sep,
        forall|j: int| k <= j < s.len() ==> #[trigger] s[j] != sep,
    ensures
        after_last(s, sep) == k,
{
    lemma_after_last(s, sep);
    let m = after_last(s, sep);
    if k < m {
        assert(s[m - 1] == sep);
    } else if m < k {
        assert(s[k - 1] == sep);
    }
}

/// The last component is a component: not empty, without separator, and
/// not `.`. It ends where `up_to_last_component` ends, which is within the
/// path.
pub proof fn lemma_last_component(path: Seq<char>)
    ensures
        up_to_last_component(path).len() <= path.len(),
        up_to_last_component(path) == path.subrange(0, up_to_last_component(path).len() as int),
        last_component(path) matches Some(name) ==> {
            &&& name.len() > 0
            &&& name != seq!['.']
            &&& forall|j: int| 0 <= j < name.len() ==> #[trigger] name[j] != '/'
        },
    decreases path.len(),
{
    let whole = up_to_last_component(path);
    if path.len() == 0 {
        assert(path.subrange(0, 0) =~= path);
    } else if path.last() != '/' && !is_dot_piece_at_end(path) {
        assert(path.subrange(0, path.len() as int) =~= path);
        lemma_after_last(path, '/');
        let k = after_last(path, '/');
        let name = last_piece(path);
        assert(path.last() != '/');
        if k == path.len() {
            assert(path[k - 1] == '/');
        }
        assert(name.last() == path.last());
        if name =~= seq!['.'] {
            assert(name[0] == '.');
            assert(k == path.len() - 1);
            if k > 0 {
                assert(path[k - 1] == '/');
            }
        }
        assert forall|j: int| 0 <= j < name.len() implies #[trigger] name[j] != '/' by {
            assert(name[j] == path[k + j]);
        }
    } else {
        let front = path.drop_last();
        lemma_last_component(front);
        assert(front.subrange(0, whole.len() as int) =~= path.subrange(0, whole.len() as int));
    }
}

/// A separator or a `.` component at the end of a path changes neither
/// the name of the entry nor the name of the directory that holds it, and
/// so not what the path is taken for.
pub proof fn lemma_separators_and_dots_skipped(path: Seq<char>)
    ensures
        up_to_last_component(path.push('/')) == up_to_last_component(path),
        file_name(path.push('/')) == file_name(path),
        parent_name(path.push('/')) == parent_name(path),
        extension(path.push('/')) == extension(path),
        is_stats_path(path.push('/')) == is_stats_path(path),
        is_world_path(path.push('/')) == is_world_path(path),
        up_to_last_component(path.push('/').push('.')) == up_to_last_component(path),
        file_name(path.push('/').push('.')) == file_name(path),
        parent_name(path.push('/').push('.')) == parent_name(path),
        extension(path.push('/').push('.')) == extension(path),
        is_stats_path(path.push('/').push('.')) == is_stats_path(path),
        is_world_path(path.push('/').push('.')) == is_world_path(path),
{
    let slash = path.push('/');
    assert(slash.drop_last() =~= path);
    let dot = slash.push('.');
    assert(dot.drop_last() =~= slash);
    assert(dot[dot.len() - 2] == '/');
}

/// A file named `<id>.json` in a directory named `stats` is a stats file,
/// whatever stands before that directory and however many separators stand
/// between the two; a write to it is a stats write.
pub proof fn lemma_stats_file_shape(dir: Seq<char>, id: Seq<char>)
    requires
        id.len() > 0,
        forall|j: int| 0 <= j < id.len() ==> #[trigger] id[j] != '/',
    ensures
        is_stats_path(dir + "/stats/"@ + id + ".json"@),
        is_stats_path(dir + "/stats//"@ + id + ".json"@),
        classified(EventKind::Write, dir + "/stats/"@ + id + ".json"@) == Classified::StatsWritten,
{
    reveal_strlit("/stats/");
    reveal_strlit("/stats//");
    reveal_strlit("/stats");
    assert(dir + "/stats/"@ =~= (dir + "/stats"@).push('/'));
    assert(dir + "/stats//"@ =~= (dir + "/stats"@).push('/').push('/'));
    lemma_file_in_directory(dir + "/stats/"@, id);
    lemma_file_in_directory(dir + "/stats//"@, id);
    lemma_named_directory(dir);
    lemma_separators_and_dots_skipped(dir + "/stats"@);
    lemma_separators_and_dots_skipped((dir + "/stats"@).push('/'));
}

/// The path `<dir>/stats` ends in a component named `stats`.
proof fn lemma_named_directory(dir: Seq<char>)
    ensures
        file_name(dir + "/stats"@) == Some(STATS_FOLDER@),
{
    reveal_strlit("/stats");
    reveal_strlit("stats");
    reveal_strlit("..");
    let path = dir + "/stats"@;
    assert(path.last() == 's');
    assert(path[dir.len() as int] == '/');
    lemma_after_last_unique(path, '/', dir.len() as int + 1);
    assert(last_piece(path) =~= "stats"@);
    assert("stats"@.len() != ".."@.len());
}

/// In `<holder><id>.json`, where `holder` ends in a separator and `id` is
/// a non-empty name, the entry has the extension `json` and the directory
/// that holds it is the one `holder` names.
proof fn lemma_file_in_directory(holder: Seq<char>, id: Seq<char>)
    requires
        holder.len() > 0,
        holder.last() == '/',
        id.len() > 0,
        forall|j: int| 0 <= j < id.len() ==> #[trigger] id[j] != '/',
    ensures
        extension(holder + id + ".json"@) == Some(STATS_EXTENSION@),
        parent_name(holder + id + ".json"@) == file_name(holder),
{
    reveal_strlit(".json");
    reveal_strlit("json");
    reveal_strlit("..");
    let path = holder + id + ".json"@;
    let n = path.len() as int;
    let cut: int = holder.len() as int;
    assert(path.last() == 'n');
    assert(up_to_last_component(path) == path);
    assert(path[cut - 1] == '/');
    assert forall|j: int| cut <= j < n implies #[trigger] path[j] != '/' by {
        if j < cut + id.len() {
            assert(path[j] == id[j - cut]);
        } else {
            assert(path[j] == ".json"@[j - cut - id.len()]);
        }
    }
    lemma_after_last_unique(path, '/', cut);
    let name = last_piece(path);
    assert(name =~= id + ".json"@);
    assert(name.len() != ".."@.len());
    let dot: int = id.len() as int + 1;
    assert(name[dot - 1] == '.');
    lemma_after_last_unique(name, '.', dot);
    assert(name.subrange(dot, name.len() as int) =~= "json"@);
    assert(path.subrange(0, cut) =~= holder);
}

/// An entry directly inside a directory named `saves` is a world folder,
/// whatever stands before that directory; its creation is a new world.
pub proof fn lemma_world_folder_shape(root: Seq<char>, world: Seq<char>)
    requires
        world.len() > 0,
        world != seq!['.'],
        forall|j: int| 0 <= j < world.len() ==> #[trigger] world[j] != '/',
    ensures
        is_world_path(root + "/saves/"@ + world),
        classified(EventKind::Create, root + "/saves/"@ + world) == Classified::NewWorld,
{
    reveal_strlit("/saves/");
    reveal_strlit("saves");
    reveal_strlit("..");
    let path = root + "/saves/"@ + world;
    let cut: int = root.len() as int + 7;
    assert(path.last() == world.last());
    if path.last() == '.' {
        if world.len() == 1 {
            assert(world =~= seq!['.']);
        } else {
            assert(path[path.len() - 2] == world[world.len() - 2]);
        }
    }
    assert(up_to_last_component(path) == path);
    assert(path[cut - 1] == '/');
    assert forall|j: int| cut <= j < path.len() implies #[trigger] path[j] != '/' by {
        assert(path[j] == world[j - cut]);
    }
    lemma_after_last_unique(path, '/', cut);
    let holder = path.subrange(0, cut);
    let dir = path.subrange(0, cut - 1);
    assert(holder =~= dir.push('/'));
    lemma_separators_and_dots_skipped(dir);
    assert(dir.last() == 's');
    assert(dir[root.len() as int] == '/');
    lemma_after_last_unique(dir, '/', root.len() as int + 1);
    assert(last_piece(dir) =~= "saves"@);
    assert("saves"@.len() != ".."@.len());
}

/// A write to a world's `level.dat` is ignored, wherever the world lies.
pub proof fn lemma_level_file_ignored(world: Seq<char>)
    ensures
        !is_stats_path(world + "/level.dat"@),
        classified(EventKind::Write, world + "/level.dat"@) == Classified::Ignored,
{
    reveal_strlit("/level.dat");
    reveal_strlit("json");
    reveal_strlit("..");
    let path = world + "/level.dat"@;
    let cut: int = world.len() as int + 1;
    assert(path.last() == 't');
    assert(up_to_last_component(path) == path);
    assert(path[cut - 1] == '/');
    assert forall|j: int| cut <= j < path.len() implies #[trigger] path[j] != '/' by {
        assert(path[j] == "/level.dat"@[j - world.len()]);
    }
    lemma_after_last_unique(path, '/', cut);
    let name = last_piece(path);
    assert(name.len() != ".."@.len());
    assert(name[5] == '.');
    assert forall|j: int| 6 <= j < name.len() implies #[trigger] name[j] != '.' by {
        assert(name[j] == "/level.dat"@[j + 1]);
    }
    lemma_after_last_unique(name, '.', 6);
    assert(extension(path) == Some(name.subrange(6, 9)));
    assert(name.subrange(6, 9).len() != "json"@.len());
}

/// Finds the last `sep` in the characters `start..end` of `text`, and gives
/// the index just past it, or `start` where there is none.
fn scan_back(text: &str, start: usize, end: usize, sep: char) -> (k: usize)
    requires
        start <= end <= text@.len(),
    ensures
        k == start + after_last(text@.subrange(start as int, end as int), sep),
        start <= k <= end,
{
    let mut k: usize = end;
    while k > start
        invariant
            start <= k <= end <= text@.len(),
            after_last(text@.subrange(start as int, end as int), sep) == after_last(
                text@.subrange(start as int, k as int),
                sep,
            ),
        decreases k,
    {
        let c: char = text.get_char(k - 1);
        let ghost part = text@.subrange(start as int, k as int);
        assert(part.last() == c);
        if c == sep {
            return k;
        }
        assert(part.drop_last() =~= text@.subrange(start as int, k - 1));
        k = k - 1;
    }
    k
}

/// Steps back from index `end` of `path` over separators and `.` pieces,
/// to the end of the last component before `end`, or to the start where
/// there is none.
fn skip_back(path: &str, end: usize) -> (k: usize)
    requires
        end <= path@.len(),
    ensures
        k <= end,
        path@.subrange(0, k as int) == up_to_last_component(path@.subrange(0, end as int)),
{
    let mut k: usize = end;
    while k > 0
        invariant
            k <= end <= path@.len(),
            up_to_last_component(path@.subrange(0, end as int)) == up_to_last_component(
                path@.subrange(0, k as int),
            ),
        decreases k,
    {
        let ghost part = path@.subrange(0, k as int);
        let c: char = path.get_char(k - 1);
        assert(part.last() == c);
        let skip: bool = if c == '/' {
            true
        } else if c == '.' {
            if k == 1 {
                true
            } else {
                let before: char = path.get_char(k - 2);
                assert(part[part.len() - 2] == before);
                before == '/'
            }
        } else {
            false
        };
        if !skip {
            return k;
        }
        assert(part.drop_last() =~= path@.subrange(0, k - 1));
        k = k - 1;
    }
    k
}

/// Whether the characters `start..end` of `text` spell `word`.
fn spells(text: &str, start: usize, end: usize, word: &str) -> (same: bool)
    requires
        start <= end <= text@.len(),
    ensures
        same == (text@.subrange(start as int, end as int) == word@),
{
    let n: usize = word.unicode_len();
    if end - start != n {
        return false;
    }
    let ghost part = text@.subrange(start as int, end as int);
    let mut i: usize = 0;
    while i < n
        invariant
            start <= end <= text@.len(),
            n == word@.len(),
            n == end - start,
            i <= n,
            part == text@.subrange(start as int, end as int),
            forall|j: int| 0 <= j < i ==> part[j] == word@[j],
        decreases n - i,
    {
        let a: char = text.get_char(start + i);
        let b: char = word.get_char(i);
        assert(part[i as int] == a);
        if a != b {
            return false;
        }
        i = i + 1;
    }
    assert(part =~= word@);
    true
}

/// Whether the characters before index `end` of `path` end in a component
/// named `word`.
fn dir_is_named(path: &str, end: usize, word: &str) -> (same: bool)
    requires
        end <= path@.len(),
    ensures
        same == (file_name(path@.subrange(0, end as int)) == Some(word@)),
{
    let stop: usize = skip_back(path, end);
    if stop == 0 {
        return false;
    }
    let start: usize = scan_back(path, 0, stop, '/');
    let ghost whole = path@.subrange(0, stop as int);
    assert(last_piece(whole) =~= path@.subrange(start as int, stop as int));
    if spells(path, start, stop, "..") {
        return false;
    }
    spells(path, start, stop, word)
}

/// Whether `file` names a player's stats file: the extension of its name is
/// `json` and the directory that holds it is named `stats`. Separators at
/// the end, doubled separators and `.` components count for nothing.
pub fn is_stat_file(file: &str) -> (yes: bool)
    ensures
        yes == is_stats_path(file@),
{
    let n: usize = file.unicode_len();
    proof {
        assert(file@.subrange(0, n as int) =~= file@);
    }
    let stop: usize = skip_back(file, n);
    if stop == 0 {
        return false;
    }
    let name: usize = scan_back(file, 0, stop, '/');
    let ghost whole = file@.subrange(0, stop as int);
    proof {
        assert(last_piece(whole) =~= file@.subrange(name as int, stop as int));
        assert(whole.subrange(0, name as int) =~= file@.subrange(0, name as int));
    }
    if spells(file, name, stop, "..") {
        return false;
    }
    let dot: usize = scan_back(file, name, stop, '.');
    if dot - name <= 1 {
        return false;
    }
    proof {
        let base = last_piece(whole);
        assert(base.subrange(dot - name, base.len() as int) =~= file@.subrange(
            dot as int,
            stop as int,
        ));
    }
    if !spells(file, dot, stop, STATS_EXTENSION) {
        return false;
    }
    dir_is_named(file, name, STATS_FOLDER)
}

/// Whether `file` names a new world: the directory that holds it is named
/// `saves`. A path without such a directory names none.
pub fn is_new_world(file: &str) -> (yes: bool)
    ensures
        yes == is_world_path(file@),
{
    let n: usize = file.unicode_len();
    proof {
        assert(file@.subrange(0, n as int) =~= file@);
    }
    let stop: usize = skip_back(file, n);
    if stop == 0 {
        return false;
    }
    let name: usize = scan_back(file, 0, stop, '/');
    proof {
        let whole = file@.subrange(0, stop as int);
        assert(whole.subrange(0, name as int) =~= file@.subrange(0, name as int));
    }
    dir_is_named(file, name, SAVES_FOLDER)
}

/// Classifies a notification. A write counts only on a stats file, a
/// creation only on a world folder; everything else is ignored.
pub fn classify(kind: EventKind, path: &str) -> (event: Classified)
    ensures
        event == classified(kind, path@),
{
    match kind {
        EventKind::Write => {
            if is_stat_file(path) {
                Classified::StatsWritten
            } else {
                Classified::Ignored
            }
        },
        EventKind::Create => {
            if is_new_world(path) {
                Classified::NewWorld
            } else {
                Classified::Ignored
            }
        },
        EventKind::Other => Classified::Ignored,
    }
}

} // verus!
