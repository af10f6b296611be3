//! Where received files are put.

use crate::error::{Error, ErrorView, Result};
use crate::mime::{subdir_name, MediaKind};
use crate::sanitize::{safe_file_name, safe_name};
use crate::text::{
    after, after_last, chars_of, decimal, decimal_is_one_to_one, decimal_text,
    last_parts_begin_at_separators, lemma_after_last_len, opt_view, parts_are_between_separators,
    parts_at, seq_view, slice_of, string_of, texts_without_separators_are_whole,
};
use vstd::prelude::*;

verus! {

/// The parts between the slashes of a path.
pub open spec fn split_path(path: Seq<char>) -> Seq<Seq<char>>
    decreases path.len(),
{
    if path.len() == 0 {
        seq![Seq::empty()]
    } else if path.last() == '/' {
        split_path(path.drop_last()).push(Seq::empty())
    } else {
        let parts = split_path(path.drop_last());
        parts.drop_last().push(parts.last().push(path.last()))
    }
}

/// A part that names something: neither empty nor the directory itself.
pub open spec fn names_something(part: Seq<char>) -> bool {
    part.len() > 0 && part != "."@
}

/// The parts of a list that name something.
pub open spec fn naming_parts(parts: Seq<Seq<char>>) -> Seq<Seq<char>>
    decreases parts.len(),
{
    if parts.len() == 0 {
        Seq::empty()
    } else if names_something(parts.last()) {
        naming_parts(parts.drop_last()).push(parts.last())
    } else {
        naming_parts(parts.drop_last())
    }
}

/// The parts of a path that name something.
pub open spec fn components(path: Seq<char>) -> Seq<Seq<char>> {
    naming_parts(split_path(path))
}

/// The name under which a member of an archive is kept: the last part of a
/// relative path that does not go up and holds at most one folder.
pub open spec fn member_name(raw: Seq<char>) -> Option<Seq<char>> {
    let parts = components(raw);
    if raw.len() > 0 && raw[0] == '/' {
        None
    } else if parts.len() == 0 || parts.len() > 2 || parts.contains(".."@) {
        None
    } else {
        safe_name(parts.last())
    }
}

fn named(part: &Vec<char>) -> (yes: bool)
    ensures
        yes == names_something(part@),
{
    proof {
        reveal_strlit(".");
        if part@.len() == 1 && part@[0] == '.' {
            assert(part@ =~= "."@);
        }
    }
    part.len() > 0 && !(part.len() == 1 && part[0] == '.')
}

fn path_parts(path: &[char]) -> (parts: Vec<Vec<char>>)
    ensures
        seq_view(parts@) == components(path@),
{
    let mut parts: Vec<Vec<char>> = Vec::new();
    let mut current: Vec<char> = Vec::new();
    proof {
        let before = split_path(path@.take(0));
        assert(before.drop_last() =~= Seq::empty());
        assert(seq_view(parts@) =~= Seq::empty());
        assert(before.last() =~= current@);
    }
    for i in 0..path.len()
        invariant
            split_path(path@.take(i as int)).len() > 0,
            split_path(path@.take(i as int)).last() == current@,
            naming_parts(split_path(path@.take(i as int)).drop_last()) == seq_view(parts@),
    {
        let ghost before = split_path(path@.take(i as int));
        let ghost after = split_path(path@.take(i + 1));
        let ghost held = parts@;
        assert(path@.take(i + 1).drop_last() =~= path@.take(i as int));
        if path[i] == '/' {
            assert(after.drop_last() =~= before);
            if named(&current) {
                parts.push(current);
                assert(seq_view(parts@) =~= seq_view(held).push(before.last()));
            }
            current = Vec::new();
            assert(after.last() =~= current@);
        } else {
            current.push(path[i]);
            assert(after.drop_last() =~= before.drop_last());
        }
    }
    assert(path@.take(path@.len() as int) =~= path@);
    if named(&current) {
        let ghost held = parts@;
        let ghost last = current@;
        parts.push(current);
        assert(seq_view(parts@) =~= seq_view(held).push(last));
    }
    parts
}

fn is_parent(part: &Vec<char>) -> (yes: bool)
    ensures
        yes == (part@ == ".."@),
{
    proof {
        reveal_strlit("..");
        if part@.len() == 2 && part@[0] == '.' && part@[1] == '.' {
            assert(part@ =~= ".."@);
        }
    }
    part.len() == 2 && part[0] == '.' && part[1] == '.'
}

/// Names of archive members may hold `./` and a single relative folder; going up
/// is refused.
pub fn archive_member_name(raw: &str) -> (name: Result<String>)
    ensures
        match member_name(raw@) {
            Some(member) => name is Ok && name->Ok_0@ == member,
            None => name is Err && name->Err_0@ == ErrorView::UnsafeName,
        },
{
    let chars = chars_of(raw);
    if chars.len() > 0 && chars[0] == '/' {
        return Err(Error::UnsafeName);
    }
    let parts = path_parts(chars.as_slice());
    let ghost views = components(raw@);
    for i in 0..parts.len()
        invariant
            views == seq_view(parts@),
            views == components(raw@),
            forall|j: int| 0 <= j < i ==> #[trigger] views[j] != ".."@,
    {
        if is_parent(&parts[i]) {
            assert(views[i as int] == ".."@);
            assert(views.contains(".."@));
            return Err(Error::UnsafeName);
        }
    }
    if parts.len() == 0 || parts.len() > 2 {
        return Err(Error::UnsafeName);
    }
    let base = string_of(parts[parts.len() - 1].as_slice());
    assert(base@ == views.last());
    safe_file_name(base.as_str())
}

/// The last part of a path, unless it goes up.
pub open spec fn leaf(path: Seq<char>) -> Option<Seq<char>> {
    let parts = components(path);
    if parts.len() == 0 || parts.last() == ".."@ {
        None
    } else {
        Some(parts.last())
    }
}

/// How many characters of a file name stand before its extension: those before
/// the last dot, or all where there is no dot but a leading one.
pub open spec fn stem_len(name: Seq<char>) -> int {
    let tail = after_last(name, '.').len();
    if tail + 1 >= name.len() {
        name.len() as int
    } else {
        name.len() - tail - 1
    }
}

/// The name that is tried after `tried` others were taken: the name itself, then
/// the name with a number.
pub open spec fn candidate_name(file_name: Seq<char>, tried: nat) -> Seq<char> {
    let (stem, ext) = match leaf(file_name) {
        Some(name) => (name.take(stem_len(name)), name.skip(stem_len(name))),
        None => ("file"@, Seq::empty()),
    };
    if tried == 0 {
        file_name
    } else {
        stem + " ("@ + decimal_text(tried) + ")"@ + ext
    }
}

/// The name for a file that is announced as `file_name`, when `tried` names
/// were taken already. The caller looks whether a file of that name exists, and
/// goes on if so. See [`a_candidate_is_free`].
pub fn unique_path(file_name: &str, tried: u64) -> (name: String)
    ensures
        name@ == candidate_name(file_name@, tried as nat),
{
    if tried == 0 {
        return file_name.to_owned();
    }
    let chars = chars_of(file_name);
    let parts = path_parts(chars.as_slice());
    let ghost views = components(file_name@);
    let mut stem = "file".to_owned();
    let mut ext = String::new();
    if parts.len() > 0 && !is_parent(&parts[parts.len() - 1]) {
        let name = &parts[parts.len() - 1];
        assert(name@ == views.last());
        let tail: usize = after(name.as_slice(), '.').len();
        proof {
            lemma_after_last_len(name@, '.');
        }
        let cut: usize = if name.len() == 0 || tail >= name.len() - 1 {
            name.len()
        } else {
            name.len() - tail - 1
        };
        stem = string_of(slice_of(name.as_slice(), 0, cut).as_slice());
        ext = string_of(slice_of(name.as_slice(), cut, name.len()).as_slice());
        assert(name@.take(cut as int) =~= name@.subrange(0, cut as int));
        assert(name@.skip(cut as int) =~= name@.subrange(cut as int, name@.len() as int));
    }
    let mut name = stem;
    name.append(" (");
    name.append(decimal(tried).as_str());
    name.append(")");
    name.append(ext.as_str());
    name
}

/// The name of a file while it is being received.
pub open spec fn partial_name(final_name: Seq<char>) -> Seq<char> {
    "."@ + final_name + ".partial"@
}

/// The name, beside `final_name`, of a file while it is being received.
pub fn partial_path(final_name: &str) -> (name: String)
    ensures
        name@ == partial_name(final_name@),
{
    let mut name = ".".to_owned();
    name.append(final_name);
    name.append(".partial");
    name
}

/// The folder below the inbox and the name for a received file.
#[derive(Debug, Clone, PartialEq, Eq)]
pub struct Destination {
    pub folder: Option<&'static str>,
    pub name: String,
}

/// Puts `file_name` in the inbox, or in a folder of its kind where the inbox is
/// sorted.
pub fn destination(file_name: &str, kind: MediaKind, sort_media: bool) -> (dest: Result<Destination>)
    ensures
        match safe_name(file_name@) {
            Some(safe) => {
                &&& dest is Ok
                &&& dest->Ok_0.name@ == safe
                &&& opt_view(dest->Ok_0.folder) == if sort_media {
                    subdir_name(kind)
                } else {
                    None
                }
            },
            None => dest is Err && dest->Err_0@ == ErrorView::UnsafeName,
        },
{
    let name = safe_file_name(file_name)?;
    let folder = if sort_media {
        kind.subdir()
    } else {
        None
    };
    Ok(Destination { folder, name })
}

/// The candidates for a file differ from each other: for the name of a file,
/// which no path separator is in.
pub proof fn candidates_differ(file_name: Seq<char>, a: nat, b: nat)
    requires
        a < b,
        leaf(file_name) == Some(file_name),
    ensures
        candidate_name(file_name, a) != candidate_name(file_name, b),
{
    let one = candidate_name(file_name, a);
    let two = candidate_name(file_name, b);
    let stem = file_name.take(stem_len(file_name));
    let ext = file_name.skip(stem_len(file_name));
    lemma_after_last_len(file_name, '.');
    reveal_strlit(" (");
    reveal_strlit(")");
    if a == 0 {
        assert(two.len() > file_name.len());
    } else if one == two {
        let start = stem.len() + 2;
        let x = decimal_text(a);
        let y = decimal_text(b);
        assert(one == stem + " ("@ + x + ")"@ + ext);
        assert(two == stem + " ("@ + y + ")"@ + ext);
        assert(one.len() == start + x.len() + 1 + ext.len());
        assert(two.len() == start + y.len() + 1 + ext.len());
        assert(one.subrange(start as int, (start + x.len()) as int) =~= x);
        assert(two.subrange(start as int, (start + x.len()) as int) =~= y);
        decimal_is_one_to_one(a, b);
    }
}

/// Whatever names are taken, one of the candidates is free, and it comes up after
/// at most as many tries as there are names.
pub proof fn a_candidate_is_free(file_name: Seq<char>, taken: Set<Seq<char>>)
    requires
        leaf(file_name) == Some(file_name),
        taken.finite(),
    ensures
        exists|tried: nat|
            tried <= taken.len() && !taken.contains(#[trigger] candidate_name(file_name, tried)),
{
    if forall|tried: nat|
        tried <= taken.len() ==> taken.contains(#[trigger] candidate_name(file_name, tried)) {
        let all = Seq::new(taken.len() + 1, |i: int| candidate_name(file_name, i as nat));
        assert(all.no_duplicates()) by {
            assert forall|i: int, j: int| 0 <= i < all.len() && 0 <= j < all.len() && i != j implies
                all[i] != all[j] by {
                if i < j {
                    candidates_differ(file_name, i as nat, j as nat);
                } else {
                    candidates_differ(file_name, j as nat, i as nat);
                }
            }
        }
        all.unique_seq_to_set();
        assert forall|name: Seq<char>| all.to_set().contains(name) implies taken.contains(name) by {
            let i = choose|i: int| 0 <= i < all.len() && all[i] == name;
            assert(name == candidate_name(file_name, i as nat));
        }
        vstd::set_lib::lemma_len_subset(all.to_set(), taken);
    }
}

proof fn lemma_split(path: Seq<char>)
    ensures
        split_path(path) == parts_at(path, '/'),
    decreases path.len(),
{
    if path.len() > 0 {
        lemma_split(path.drop_last());
    }
}

/// One part of a path.
pub open spec fn is_part(part: Seq<char>) -> bool {
    part.len() > 0 && part != "."@ && part != ".."@ && forall|i: int|
        0 <= i < part.len() ==> #[trigger] part[i] != '/'
}

proof fn lemma_part(part: Seq<char>)
    requires
        forall|i: int| 0 <= i < part.len() ==> #[trigger] part[i] != '/',
    ensures
        components(part) == if part.len() > 0 && part != "."@ {
            seq![part]
        } else {
            Seq::empty()
        },
{
    lemma_split(part);
    parts_are_between_separators(Seq::empty(), part, '/');
    assert(seq![part].drop_last() =~= Seq::empty());
    assert(naming_parts(Seq::empty()) =~= Seq::empty());
    assert(components(part) =~= if part.len() > 0 && part != "."@ {
        seq![part]
    } else {
        Seq::empty()
    });
}

proof fn lemma_longer_path(path: Seq<char>, part: Seq<char>)
    requires
        forall|i: int| 0 <= i < part.len() ==> #[trigger] part[i] != '/',
    ensures
        components(path + seq!['/'] + part) == if part.len() > 0 && part != "."@ {
            components(path).push(part)
        } else {
            components(path)
        },
{
    lemma_split(path);
    lemma_split(path + seq!['/'] + part);
    parts_are_between_separators(path, part, '/');
    let parts = split_path(path).push(part);
    assert(parts.drop_last() =~= split_path(path));
}

/// The member of an archive is kept under the last part of its path: alone, behind
/// `./`, or behind one folder.
pub proof fn members_keep_their_last_part(folder: Seq<char>, name: Seq<char>)
    requires
        is_part(folder),
        is_part(name),
    ensures
        member_name(name) == safe_name(name),
        member_name(seq!['.', '/'] + name) == safe_name(name),
        member_name(folder + seq!['/'] + name) == safe_name(name),
        member_name(seq!['.', '/'] + folder + seq!['/'] + name) == safe_name(name),
        member_name(folder + seq!['/']) == safe_name(folder),
{
    reveal_strlit(".");
    assert("."@ =~= seq!['.']);
    let dot = seq!['.'];
    lemma_part(name);
    lemma_part(folder);
    lemma_part(dot);
    lemma_longer_path(dot, name);
    lemma_longer_path(folder, name);
    lemma_longer_path(dot, folder);
    lemma_longer_path(dot + seq!['/'] + folder, name);
    lemma_longer_path(folder, Seq::empty());
    let none = Seq::<char>::empty();
    assert(seq!['.', '/'] + name =~= dot + seq!['/'] + name);
    assert(seq!['.', '/'] + folder + seq!['/'] + name =~= dot + seq!['/'] + folder + seq!['/'] + name);
    assert(folder + seq!['/'] + none =~= folder + seq!['/']);
    assert(Seq::<Seq<char>>::empty().push(name) =~= seq![name]);
    assert(Seq::<Seq<char>>::empty().push(folder) =~= seq![folder]);
    assert(seq![folder].push(name) =~= seq![folder, name]);
    let up = ".."@;
    assert(!seq![name].contains(up)) by {
        assert(forall|i: int| 0 <= i < seq![name].len() ==> seq![name][i] == name);
    }
    assert(!seq![folder].contains(up)) by {
        assert(forall|i: int| 0 <= i < seq![folder].len() ==> seq![folder][i] == folder);
    }
    let both = seq![folder, name];
    assert(!both.contains(up)) by {
        assert(both[0] == folder && both[1] == name);
    }
    assert((folder + seq!['/'] + name)[0] == folder[0]);
    assert((folder + seq!['/'])[0] == folder[0]);
}

/// No member of an archive gets out of the folder that it is put in: a path from
/// the root, one with a part that goes up, and one with more than one folder is
/// refused.
pub proof fn paths_out_are_refused(path: Seq<char>, a: Seq<char>, b: Seq<char>, c: Seq<char>)
    requires
        is_part(a),
        is_part(b),
        is_part(c),
    ensures
        path.len() > 0 && path[0] == '/' ==> member_name(path) is None,
        member_name(seq!['.', '.']) is None,
        member_name(path + seq!['/', '.', '.']) is None,
        member_name(seq!['.', '.', '/'] + a) is None,
        member_name(a + seq!['/', '.', '.', '/'] + b) is None,
        member_name(a + seq!['/'] + b + seq!['/'] + c) is None,
        member_name(Seq::empty()) is None,
{
    reveal_strlit(".");
    reveal_strlit("..");
    let up = seq!['.', '.'];
    assert(up =~= ".."@);
    assert(up != "."@);
    lemma_part(up);
    lemma_part(a);
    lemma_part(Seq::empty());
    lemma_longer_path(path, up);
    assert(path + seq!['/'] + up =~= path + seq!['/', '.', '.']);
    let ups = components(path).push(up);
    assert(ups[ups.len() - 1] == up);
    lemma_longer_path(up, a);
    assert(up + seq!['/'] + a =~= seq!['.', '.', '/'] + a);
    assert(seq![up].push(a)[0] == up);
    assert(seq![up][0] == up);
    lemma_longer_path(a, up);
    lemma_longer_path(a + seq!['/'] + up, b);
    assert(a + seq!['/'] + up + seq!['/'] + b =~= a + seq!['/', '.', '.', '/'] + b);
    assert(seq![a].push(up).push(b)[1] == up);
    lemma_longer_path(a, b);
    lemma_longer_path(a + seq!['/'] + b, c);
}

/// Where a name is taken, a number goes before its extension, or behind the name
/// where it has none or is all extension.
pub proof fn numbers_go_before_extensions(stem: Seq<char>, ext: Seq<char>, tried: nat)
    requires
        tried > 0,
        stem.len() > 0,
        is_part(stem + seq!['.'] + ext),
        is_part(stem),
        forall|i: int| 0 <= i < ext.len() ==> #[trigger] ext[i] != '.',
    ensures
        candidate_name(stem + seq!['.'] + ext, 0) == stem + seq!['.'] + ext,
        candidate_name(stem + seq!['.'] + ext, tried) == stem + seq![' ', '('] + decimal_text(tried)
            + seq![')', '.'] + ext,
        (forall|i: int| 0 <= i < stem.len() ==> #[trigger] stem[i] != '.') ==> candidate_name(
            stem,
            tried,
        ) == stem + seq![' ', '('] + decimal_text(tried) + seq![')'],
        stem.len() > 1 && stem[0] == '.' && (forall|i: int|
            1 <= i < stem.len() ==> #[trigger] stem[i] != '.') ==> candidate_name(stem, tried)
            == stem + seq![' ', '('] + decimal_text(tried) + seq![')'],
{
    reveal_strlit(" (");
    reveal_strlit(")");
    assert(" ("@ =~= seq![' ', '(']);
    assert(")"@ =~= seq![')']);
    let name = stem + seq!['.'] + ext;
    lemma_part(name);
    lemma_part(stem);
    last_parts_begin_at_separators(stem, ext, '.');
    assert(name.take(stem.len() as int) =~= stem);
    assert(name.skip(stem.len() as int) =~= seq!['.'] + ext);
    let number = decimal_text(tried);
    assert(candidate_name(name, tried) =~= stem + seq![' ', '('] + number + seq![')', '.'] + ext);
    assert(stem.take(stem.len() as int) =~= stem);
    assert(stem.skip(stem.len() as int) =~= Seq::empty());
    if forall|i: int| 0 <= i < stem.len() ==> #[trigger] stem[i] != '.' {
        texts_without_separators_are_whole(stem, '.');
        assert(candidate_name(stem, tried) =~= stem + seq![' ', '('] + number + seq![')']);
    }
    if stem.len() > 1 && stem[0] == '.' && (forall|i: int|
        1 <= i < stem.len() ==> #[trigger] stem[i] != '.') {
        let rest = stem.skip(1);
        let none = Seq::<char>::empty();
        assert forall|i: int| 0 <= i < rest.len() implies #[trigger] rest[i] != '.' by {
            assert(rest[i] == stem[i + 1]);
        }
        last_parts_begin_at_separators(none, rest, '.');
        assert(none + seq!['.'] + rest =~= stem);
        assert(candidate_name(stem, tried) =~= stem + seq![' ', '('] + number + seq![')']);
    }
}

/// A file that is being received is hidden, and its name tells the name that it
/// will have.
pub proof fn partial_files_are_hidden(name: Seq<char>)
    ensures
        partial_name(name) == seq!['.'] + name + seq!['.', 'p', 'a', 'r', 't', 'i', 'a', 'l'],
{
    reveal_strlit(".");
    reveal_strlit(".partial");
    assert("."@ =~= seq!['.']);
    assert(".partial"@ =~= seq!['.', 'p', 'a', 'r', 't', 'i', 'a', 'l']);
}

} // verus!
