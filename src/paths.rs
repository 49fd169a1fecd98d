use vstd::prelude::*;

verus! {

/// The extension that selects input files, with its dot: `.uexp`.
pub open spec fn target_suffix() -> Seq<char> {
    seq!['.', 'u', 'e', 'x', 'p']
}

/// The extension given to extracted files, with its dot: `.awb`.
pub open spec fn output_suffix() -> Seq<char> {
    seq!['.', 'a', 'w', 'b']
}

/// The file name `name` has the extension `uexp` (compared exactly, case
/// included): it ends in `.uexp` after a stem of at least one character.
pub open spec fn has_target_extension(name: Seq<char>) -> bool {
    &&& name.len() > target_suffix().len()
    &&& name.subrange(name.len() - target_suffix().len(), name.len() as int) == target_suffix()
}

/// The offset of the last `.` among the first `k` characters of `name`, or
/// -1 where there is none.
pub open spec fn last_dot_before(name: Seq<char>, k: int) -> int
    decreases k,
{
    if k <= 0 {
        -1
    } else if name[k - 1] == '.' {
        k - 1
    } else {
        last_dot_before(name, k - 1)
    }
}

/// The file name without its extension: the part before the last `.`. A name
/// with no `.`, or whose one `.` leads it, is its own stem.
pub open spec fn stem_of(name: Seq<char>) -> Seq<char> {
    let d = last_dot_before(name, name.len() as int);
    if d > 0 {
        name.subrange(0, d)
    } else {
        name
    }
}

/// The name of the file extracted from the input file `name`.
pub open spec fn output_name(name: Seq<char>) -> Seq<char> {
    stem_of(name) + output_suffix()
}

/// `prefix` is a leading part of the path `path`, component by component.
pub open spec fn is_path_prefix(prefix: Seq<Seq<char>>, path: Seq<Seq<char>>) -> bool {
    prefix.len() <= path.len() && path.subrange(0, prefix.len() as int) == prefix
}

/// The directory `dir` relative to the scanned root `scan_root`; a directory
/// outside that root is kept whole.
pub open spec fn relative_dir(dir: Seq<Seq<char>>, scan_root: Seq<Seq<char>>) -> Seq<Seq<char>> {
    if is_path_prefix(scan_root, dir) {
        dir.subrange(scan_root.len() as int, dir.len() as int)
    } else {
        dir
    }
}

/// The output directory that mirrors `dir` under `output_root`.
pub open spec fn mirrored_dir(
    dir: Seq<Seq<char>>,
    scan_root: Seq<Seq<char>>,
    output_root: Seq<Seq<char>>,
) -> Seq<Seq<char>> {
    output_root + relative_dir(dir, scan_root)
}

/// An input file `<root>/<rel>/<stem>.uexp` is selected, and its archive
/// goes to `<output_root>/<rel>/<stem>.awb`.
pub proof fn lemma_path_mirroring(
    root: Seq<Seq<char>>,
    rel: Seq<Seq<char>>,
    output_root: Seq<Seq<char>>,
    stem: Seq<char>,
)
    requires
        stem.len() > 0,
    ensures
        has_target_extension(stem + target_suffix()),
        mirrored_dir(root + rel, root, output_root).push(output_name(stem + target_suffix())) == (
        output_root + rel).push(stem + output_suffix()),
{
    let name = stem + target_suffix();
    let n = name.len() as int;
    assert(name.subrange(n - 5, n) =~= target_suffix());
    assert(name[n - 5] == '.');
    assert(last_dot_before(name, n - 4) == n - 5);
    assert(last_dot_before(name, n - 3) == n - 5);
    assert(last_dot_before(name, n - 2) == n - 5);
    assert(last_dot_before(name, n - 1) == n - 5);
    assert(last_dot_before(name, n) == n - 5);
    assert(stem_of(name) =~= stem);
    assert((root + rel).subrange(0, root.len() as int) =~= root);
    assert((root + rel).subrange(root.len() as int, (root + rel).len() as int) =~= rel);
}

/// What the directory walker does with one entry.
#[derive(Clone, Copy, Debug, PartialEq, Eq, Structural)]
pub enum EntryAction {
    /// A directory: walk into it.
    Descend,
    /// A file with the target extension: extract from it.
    Extract,
    /// Anything else: leave it.
    Skip,
}

/// Whether the file name `name` has the extension `uexp`.
pub fn is_target_file(name: &str) -> (r: bool)
    ensures
        r == has_target_extension(name@),
{
    let n: usize = name.unicode_len();
    if n <= 5 {
        return false;
    }
    let suffix = ".uexp";
    proof {
        reveal_strlit(".uexp");
        assert(suffix@ == target_suffix());
    }
    let mut k: usize = 0;
    while k < 5
        invariant
            n == name@.len(),
            n > 5,
            suffix@ == target_suffix(),
            k <= 5,
            forall|t: int| 0 <= t < k ==> name@[n - 5 + t] == target_suffix()[t],
        decreases 5 - k,
    {
        if name.get_char(n - 5 + k) != suffix.get_char(k) {
            proof {
                assert(name@.subrange(n - 5, n as int)[k as int] != target_suffix()[k as int]);
            }
            return false;
        }
        k = k + 1;
    }
    proof {
        assert(name@.subrange(n - 5, n as int) =~= target_suffix());
    }
    true
}

/// The name of the file extracted from the input file `name`: its stem
/// followed by `.awb` (`Zitome.uexp` gives `Zitome.awb`).
pub fn output_file_name(name: &str) -> (r: String)
    ensures
        r@ == output_name(name@),
{
    let n: usize = name.unicode_len();
    let mut k: usize = n;
    while k > 0
        invariant
            k <= n == name@.len(),
            last_dot_before(name@, n as int) == last_dot_before(name@, k as int),
        ensures
            k == 0 || name@[k - 1] == '.',
        decreases k,
    {
        if name.get_char(k - 1) == '.' {
            break;
        }
        k = k - 1;
    }
    let stem: &str = if k > 1 {
        name.substring_char(0, k - 1)
    } else {
        name
    };
    let mut out = String::from_str(stem);
    let suffix = ".awb";
    proof {
        reveal_strlit(".awb");
        assert(suffix@ == output_suffix());
    }
    out.append(suffix);
    proof {
        assert(last_dot_before(name@, n as int) == k - 1);
    }
    out
}

/// The components of `dir` after those of `scan_root`, when `scan_root`
/// leads `dir`.
fn strip_root(dir: &Vec<String>, scan_root: &Vec<String>) -> (r: Option<usize>)
    ensures
        r is Some <==> is_path_prefix(scan_root.deep_view(), dir.deep_view()),
        r matches Some(k) ==> k == scan_root@.len(),
{
    if scan_root.len() > dir.len() {
        return None;
    }
    let mut i: usize = 0;
    while i < scan_root.len()
        invariant
            scan_root@.len() <= dir@.len(),
            i <= scan_root@.len(),
            forall|t: int| 0 <= t < i ==> dir.deep_view()[t] == scan_root.deep_view()[t],
        decreases scan_root@.len() - i,
    {
        if dir[i] != scan_root[i] {
            proof {
                assert(dir.deep_view().subrange(0, scan_root@.len() as int)[i as int]
                    != scan_root.deep_view()[i as int]);
            }
            return None;
        }
        i = i + 1;
    }
    proof {
        assert(dir.deep_view().subrange(0, scan_root@.len() as int) =~= scan_root.deep_view());
    }
    Some(scan_root.len())
}

/// The output directory for files found in `dir`: `dir` taken relative to
/// the scanned root `scan_root`, placed under `output_root`. Paths are given
/// component by component.
pub fn output_dir(dir: &Vec<String>, scan_root: &Vec<String>, output_root: &Vec<String>) -> (r:
    Vec<String>)
    ensures
        r.deep_view() == mirrored_dir(dir.deep_view(), scan_root.deep_view(), output_root.deep_view()),
{
    let from: usize = match strip_root(dir, scan_root) {
        Some(k) => k,
        None => 0,
    };
    let mut out: Vec<String> = output_root.clone();
    let mut i: usize = from;
    while i < dir.len()
        invariant
            from <= i <= dir@.len(),
            out.deep_view() == output_root.deep_view() + dir.deep_view().subrange(
                from as int,
                i as int,
            ),
        decreases dir@.len() - i,
    {
        let ghost before = out.deep_view();
        let c = dir[i].clone();
        out.push(c);
        proof {
            assert(out.deep_view() =~= before.push(dir.deep_view()[i as int]));
            assert(dir.deep_view().subrange(from as int, i + 1) =~= dir.deep_view().subrange(
                from as int,
                i as int,
            ).push(dir.deep_view()[i as int]));
        }
        i = i + 1;
    }
    proof {
        if from == 0 {
            assert(dir.deep_view().subrange(0, dir@.len() as int) =~= dir.deep_view());
        }
    }
    out
}

/// The path of the file extracted from the input file `name` found in `dir`:
/// the mirrored output directory followed by the output file name.
pub fn output_file_path(
    dir: &Vec<String>,
    name: &str,
    scan_root: &Vec<String>,
    output_root: &Vec<String>,
) -> (r: Vec<String>)
    ensures
        r.deep_view() == mirrored_dir(dir.deep_view(), scan_root.deep_view(), output_root.deep_view()).push(
            output_name(name@),
        ),
{
    let mut out = output_dir(dir, scan_root, output_root);
    out.push(output_file_name(name));
    proof {
        assert(out.deep_view() =~= mirrored_dir(
            dir.deep_view(),
            scan_root.deep_view(),
            output_root.deep_view(),
        ).push(output_name(name@)));
    }
    out
}

/// What the directory walker does with an entry: walk into a directory,
/// extract from a file whose name has the target extension, and leave any
/// other file, or one whose name is not valid text (`None`).
pub fn classify_entry(is_dir: bool, name: Option<&str>) -> (r: EntryAction)
    ensures
        is_dir ==> r == EntryAction::Descend,
        !is_dir ==> (r == EntryAction::Extract <==> (name matches Some(n) && has_target_extension(
            n@,
        ))),
        !is_dir ==> (r == EntryAction::Skip <==> !(name matches Some(n) && has_target_extension(
            n@,
        ))),
{
    if is_dir {
        EntryAction::Descend
    } else {
        match name {
            Some(n) => if is_target_file(n) {
                EntryAction::Extract
            } else {
                EntryAction::Skip
            },
            None => EntryAction::Skip,
        }
    }
}

} // verus!
