//! Paths, compared by what they are made of.

use vstd::prelude::*;

use crate::parse;
use crate::text;

verus! {

/// A part of a path that counts: not the empty one between two separators, and not the one that
/// stands for the folder itself.
pub open spec fn counts(part: Seq<char>) -> bool {
    part.len() > 0 && part != "."@
}

/// The parts that a path is made of. Repeated separators, one at the end, and `.` anywhere but at
/// the start of a relative path make no difference.
pub open spec fn components(path: Seq<char>) -> Seq<Seq<char>> {
    let parts = parse::pieces(path, "/"@);
    let start = if path.len() > 0 && path[0] == '/' {
        seq!["/"@]
    } else if parts.len() > 0 && parts[0] == "."@ {
        seq!["."@]
    } else {
        Seq::empty()
    };
    start + parts.filter(|part: Seq<char>| counts(part))
}

/// Two paths lead to the same place by their parts.
pub open spec fn are_same(a: Seq<char>, b: Seq<char>) -> bool {
    components(a) == components(b)
}

fn read_components(path: &str) -> (list: Vec<Vec<char>>)
    ensures
        parse::contents(list@) == components(path@),
{
    proof {
        reveal_strlit("/");
    }
    let letters = text::letters(path);
    let separator = text::letters("/");
    let parts = parse::split(&letters, &separator);
    let ghost wanted = parse::contents(parts@);
    let ghost keep = |part: Seq<char>| counts(part);
    let mut list: Vec<Vec<char>> = Vec::new();
    if letters.len() > 0 && letters[0] == '/' {
        let root = text::letters("/");
        list.push(root);
        assert(parse::contents(list@) =~= seq!["/"@]);
    } else if parts.len() > 0 && parse::is_text(&parts[0], ".") {
        let here = text::letters(".");
        assert(wanted[0] == parts@[0]@);
        list.push(here);
        assert(parse::contents(list@) =~= seq!["."@]);
    } else {
        assert(parts@.len() > 0 ==> wanted[0] == parts@[0]@);
        assert(parse::contents(list@) =~= Seq::empty());
    }
    let ghost start = parse::contents(list@);
    let mut i: usize = 0;
    assert(wanted.take(0).filter(keep) =~= Seq::<Seq<char>>::empty()) by {
        reveal(Seq::filter);
    }
    while i < parts.len()
        invariant
            i <= parts@.len(),
            wanted == parse::contents(parts@),
            keep == (|part: Seq<char>| counts(part)),
            parse::contents(list@) =~= start + wanted.take(i as int).filter(keep),
        decreases parts@.len() - i,
    {
        proof {
            reveal(Seq::filter);
            assert(wanted.take(i as int + 1).drop_last() =~= wanted.take(i as int));
            assert(wanted[i as int] == parts@[i as int]@);
        }
        if parts[i].len() > 0 && !parse::is_text(&parts[i], ".") {
            let ghost before = list@;
            let part = parse::copy_of(&parts[i]);
            list.push(part);
            assert(parse::contents(list@) =~= parse::contents(before).push(part@));
        }
        i = i + 1;
    }
    assert(wanted.take(wanted.len() as int) =~= wanted);
    list
}

fn are_equal(a: &Vec<char>, b: &Vec<char>) -> (yes: bool)
    ensures
        yes == (a@ == b@),
{
    if a.len() != b.len() {
        return false;
    }
    let mut i: usize = 0;
    while i < a.len()
        invariant
            i <= a@.len(),
            a@.len() == b@.len(),
            forall|k: int| 0 <= k < i ==> a@[k] == b@[k],
        decreases a@.len() - i,
    {
        if a[i] != b[i] {
            return false;
        }
        i = i + 1;
    }
    assert(a@ =~= b@);
    true
}

/// Whether two paths lead to the same place by their parts.
pub fn same_path(a: &str, b: &str) -> (yes: bool)
    ensures
        yes == are_same(a@, b@),
{
    let one = read_components(a);
    let other = read_components(b);
    let ghost x = parse::contents(one@);
    let ghost y = parse::contents(other@);
    if one.len() != other.len() {
        return false;
    }
    let mut i: usize = 0;
    while i < one.len()
        invariant
            i <= one@.len(),
            one@.len() == other@.len(),
            x == parse::contents(one@),
            y == parse::contents(other@),
            x == components(a@),
            y == components(b@),
            forall|k: int| 0 <= k < i ==> x[k] == y[k],
        decreases one@.len() - i,
    {
        assert(x[i as int] == one@[i as int]@ && y[i as int] == other@[i as int]@);
        if !are_equal(&one[i], &other[i]) {
            return false;
        }
        i = i + 1;
    }
    assert(x =~= y);
    true
}

/// A letter that stands between two parts of a path. Windows takes both kinds of slash.
pub open spec fn separates(letter: char, on_windows: bool) -> bool {
    letter == '/' || (on_windows && letter == '\\')
}

/// Length of a path without what follows its last part that counts: separators, and parts that
/// stand for the folder itself.
pub open spec fn named_len(path: Seq<char>, on_windows: bool) -> nat
    decreases path.len(),
{
    if path.len() == 0 {
        0
    } else if separates(path.last(), on_windows) || (path.last() == '.' && path.len() >= 2
        && separates(path[path.len() - 2], on_windows)) {
        named_len(path.drop_last(), on_windows)
    } else {
        path.len()
    }
}

/// Where the part that ends at `end` starts.
pub open spec fn part_start(path: Seq<char>, end: int, on_windows: bool) -> int
    decreases end,
{
    if end <= 0 || separates(path[end - 1], on_windows) {
        end
    } else {
        part_start(path, end - 1, on_windows)
    }
}

/// The last part of a path.
pub open spec fn last_part(path: Seq<char>, on_windows: bool) -> Seq<char> {
    let end = named_len(path, on_windows) as int;
    path.subrange(part_start(path, end, on_windows), end)
}

/// A part that names a file: not a folder by its place, nor a drive.
pub open spec fn names_file(part: Seq<char>, on_windows: bool) -> bool {
    part.len() > 0 && part != "."@ && part != ".."@ && !(on_windows && part.len() == 2 && part[1]
        == ':')
}

/// The name of a file has an extension: a dot stands behind its first letter.
pub open spec fn has_extension(name: Seq<char>) -> bool {
    exists|k: int| 1 <= k < name.len() && #[trigger] name[k] == '.'
}

/// The path with `.img` behind the name of its file, where that has no extension. A path that
/// names no file stays as it is.
pub open spec fn image_path(path: Seq<char>, on_windows: bool) -> Seq<char> {
    let name = last_part(path, on_windows);
    if names_file(name, on_windows) && !has_extension(name) {
        path.take(named_len(path, on_windows) as int) + ".img"@
    } else {
        path
    }
}

/// Completes the path of an image: without an extension it gets `.img`.
pub fn with_image_extension(answer: &str, on_windows: bool) -> (path: String)
    ensures
        path@ == image_path(answer@, on_windows),
{
    let letters = text::letters(answer);
    let mut end: usize = letters.len();
    assert(letters@.take(end as int) =~= letters@);
    while end > 0 && ((letters[end - 1] == '/' || (on_windows && letters[end - 1] == '\\')) || (
    letters[end - 1] == '.' && end >= 2 && (letters[end - 2] == '/' || (on_windows && letters[end
        - 2] == '\\'))))
        invariant
            end <= letters@.len(),
            named_len(letters@, on_windows) == named_len(letters@.take(end as int), on_windows),
        decreases end,
    {
        assert(letters@.take(end as int).drop_last() =~= letters@.take(end - 1));
        end = end - 1;
    }
    assert(end == named_len(letters@, on_windows));
    let mut start: usize = end;
    let mut dotted = false;
    while start > 0 && !(letters[start - 1] == '/' || (on_windows && letters[start - 1] == '\\'))
        invariant
            start <= end <= letters@.len(),
            part_start(letters@, end as int, on_windows) == part_start(
                letters@,
                start as int,
                on_windows,
            ),
            dotted == exists|k: int| start < k < end && #[trigger] letters@[k] == '.',
        decreases start,
    {
        if start < end && letters[start] == '.' {
            dotted = true;
        }
        start = start - 1;
    }
    let name = vstd::slice::slice_subrange(letters.as_slice(), start, end);
    proof {
        reveal_strlit(".");
        reveal_strlit("..");
        assert(name@ == last_part(letters@, on_windows));
        if dotted {
            let k = choose|k: int| start < k < end && #[trigger] letters@[k] == '.';
            assert(name@[k - start] == '.');
        }
        if has_extension(name@) {
            let k = choose|k: int| 1 <= k < name@.len() && #[trigger] name@[k] == '.';
            assert(letters@[start + k] == '.');
        }
    }
    let is_drive = on_windows && name.len() == 2 && name[1] == ':';
    if dotted || is_drive || name.len() == 0 || parse::is_text(name, ".") || parse::is_text(
        name,
        "..",
    ) {
        return text::owned(answer);
    }
    let mut path = text::text_of(vstd::slice::slice_subrange(letters.as_slice(), 0, end));
    path.append(".img");
    assert(path@ =~= image_path(answer@, on_windows));
    path
}

/// A name behind a path is one more part of it, whatever separators and single dots stand between the
/// two or behind the name.
pub proof fn law_a_name_is_one_more_part(path: Seq<char>, name: Seq<char>)
    requires
        path.len() > 0,
        name.len() > 0,
        !name.contains('/'),
        name != seq!['.'],
    ensures
        components(path + seq!['/'] + name) == components(path).push(name),
        components(path + seq!['/', '/'] + name) == components(path).push(name),
        components(path + seq!['/', '.', '/'] + name) == components(path).push(name),
        components(path + seq!['/'] + name + seq!['/']) == components(path).push(name),
{
    reveal_strlit(".");
    assert("."@ =~= seq!['.']);
    let keep = |part: Seq<char>| counts(part);
    assert(keep(name));
    let none = Seq::<char>::empty();
    lemma_more_parts(path, name);
    assert(path + seq!['/'] + none =~= path + seq!['/']);
    lemma_more_parts(path, none);
    let slash = path + seq!['/'];
    lemma_more_parts(slash, name);
    assert(slash + seq!['/'] + name =~= path + seq!['/', '/'] + name);
    lemma_more_parts(path, seq!['.']);
    let dot = path + seq!['/'] + seq!['.'];
    assert(!seq!['.'].contains('/'));
    lemma_more_parts(dot, name);
    assert(dot + seq!['/'] + name =~= path + seq!['/', '.', '/'] + name);
    let named = path + seq!['/'] + name;
    lemma_more_parts(named, none);
    assert(named + seq!['/'] + none =~= named + seq!['/']);
    assert(components(path) + Seq::empty() =~= components(path));
    assert(components(path).push(name) + Seq::empty() =~= components(path).push(name));
    assert(components(path) + seq![name] =~= components(path).push(name));
}

proof fn lemma_more_parts(path: Seq<char>, last: Seq<char>)
    requires
        path.len() > 0,
        !last.contains('/'),
    ensures
        components(path + seq!['/'] + last) == components(path) + (if counts(last) {
            seq![last]
        } else {
            Seq::empty()
        }),
{
    reveal_strlit("/");
    assert("/"@ =~= seq!['/']);
    let keep = |part: Seq<char>| counts(part);
    let whole = path + seq!['/'] + last;
    parse::law_pieces_follow_each_other(path, '/', last);
    parse::law_the_first_piece_ends_at_the_separator(last, '/', Seq::empty());
    parse::law_pieces_make_up_the_text(path, "/"@);
    let (before, after) = (parse::pieces(path, "/"@), parse::pieces(whole, "/"@));
    assert(after =~= before.push(last));
    assert(whole[0] == path[0]);
    assert(after[0] == before[0]);
    reveal(Seq::filter);
    assert(after.drop_last() =~= before);
    assert(after.filter(keep) =~= before.filter(keep) + (if counts(last) {
        seq![last]
    } else {
        Seq::empty()
    }));
}

/// An image that is named without a dot gets the extension, and one whose name has a dot behind its
/// first letter keeps its name.
pub proof fn law_images_get_an_extension(folder: Seq<char>, name: Seq<char>, on_windows: bool)
    requires
        name.len() > 0,
        forall|k: int|
            0 <= k < name.len() ==> #[trigger] name[k] != '/' && !(on_windows && name[k] == '\\'),
        folder.len() > 0 ==> folder.last() == '/' || (on_windows && folder.last() == '\\'),
        !(on_windows && name.len() == 2 && name[1] == ':'),
    ensures
        !name.contains('.') ==> image_path(folder + name, on_windows) == folder + name + seq![
            '.',
            'i',
            'm',
            'g',
        ],
        name.len() >= 2 && name.skip(1).contains('.') ==> image_path(folder + name, on_windows)
            == folder + name,
{
    reveal_strlit(".img");
    reveal_strlit(".");
    reveal_strlit("..");
    assert(".img"@ =~= seq!['.', 'i', 'm', 'g']);
    let path = folder + name;
    assert(path.last() == name.last());
    assert(name[name.len() - 1] == name.last());
    if name.len() >= 2 {
        assert(path[path.len() - 2] == name[name.len() - 2]);
    }
    if !name.contains('.') {
        assert(name[name.len() - 1] != '.');
        assert forall|k: int| 1 <= k < name.len() implies #[trigger] name[k] != '.' by {}
        assert("."@[0] == '.' && ".."@[0] == '.');
        assert(name[0] != '.');
    }
    if name.len() >= 2 || !name.contains('.') {
        assert(named_len(path, on_windows) == path.len());
        lemma_part_start(folder, name, path.len() as int, on_windows);
        assert(last_part(path, on_windows) =~= name);
        assert(path.take(path.len() as int) =~= path);
    }
    if name.len() >= 2 && name.skip(1).contains('.') {
        let k = choose|k: int| 0 <= k < name.skip(1).len() && name.skip(1)[k] == '.';
        assert(name[k + 1] == '.');
    }
}

proof fn lemma_part_start(folder: Seq<char>, name: Seq<char>, end: int, on_windows: bool)
    requires
        folder.len() <= end <= folder.len() + name.len(),
        forall|k: int| 0 <= k < name.len() ==> !separates(#[trigger] name[k], on_windows),
        folder.len() > 0 ==> separates(folder.last(), on_windows),
    ensures
        part_start(folder + name, end, on_windows) == folder.len(),
    decreases end,
{
    let path = folder + name;
    if end > folder.len() {
        assert(path[end - 1] == name[end - 1 - folder.len()]);
        lemma_part_start(folder, name, end - 1, on_windows);
    } else if end > 0 {
        assert(path[end - 1] == folder.last());
    }
}

} // verus!
