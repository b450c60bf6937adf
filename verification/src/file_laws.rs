//! What holds of where requests are kept.
use vstd::prelude::*;
use vstd::string::*;

use crate::commands::below;
use crate::config::{
    before_last_part, dirs_below, global_path, parent_of, parts_among, path_joined, path_trimmed, request_name,
    request_path, rooted, same_path,
};
use crate::form::scope_path;
use crate::text::{char_from, split_at_char, split_from};

verus! {

/// A path in a directory is the directory, a separator and the path; nothing is put
/// between where the separator is there, and a path from the root stands for itself.
pub proof fn law_joining_paths(dir: Seq<char>, rest: Seq<char>)
    requires
        rest.len() > 0,
    ensures
        rest[0] == '/' ==> path_joined(dir, rest) == rest,
        rest[0] != '/' && dir.len() > 0 && dir.last() != '/' ==> path_joined(dir, rest) == dir + seq!['/']
            + rest,
        rest[0] != '/' && dir.len() > 0 && dir.last() == '/' ==> path_joined(dir, rest) == dir + rest,
        rest[0] != '/' && dir.len() == 0 ==> path_joined(dir, rest) == rest,
{
    reveal_strlit("/");
    assert("/"@ =~= seq!['/']);
    if dir.len() == 0 {
        assert(dir + rest =~= rest);
    }
}

/// A request is found under the name that it is kept under: the file of a name, in its
/// directory, is that name again without the ending.
pub proof fn law_a_kept_request_has_its_name(dir: Seq<char>, name: Seq<char>)
    requires
        name.len() > 0,
        name[0] != '/' && name.last() != '/',
        dir.len() > 0 && dir.last() != '/',
    ensures
        request_name(name + seq!['.', 'y', 'a', 'm', 'l']) == Some(name),
        request_path(dir, name) == dir + seq!['/'] + name + seq!['.', 'y', 'a', 'm', 'l'],
        request_name(request_path(dir, name).skip(dir.len() as int + 1)) == Some(name),
{
    reveal_strlit(".yaml");
    reveal_strlit("/");
    assert("/"@ =~= seq!['/']);
    let end = seq!['.', 'y', 'a', 'm', 'l'];
    assert(".yaml"@ =~= end);
    let file = name + end;
    assert(file.skip(file.len() - 5) =~= end);
    assert(file.take(file.len() - 5) =~= name);
    assert(file[file.len() - 6] == name.last());
    assert(file[0] == name[0]);
    let path = request_path(dir, name);
    assert(path =~= dir + seq!['/'] + name + end);
    assert(path.skip(dir.len() as int + 1) =~= file);
}

/// A file with any other ending, or nothing before the ending, holds no request.
pub proof fn law_other_files_hold_none(path: Seq<char>)
    requires
        path.len() <= 5 || path.skip(path.len() - 5) != seq!['.', 'y', 'a', 'm', 'l'] || path[path.len()
            - 6] == '/',
    ensures
        request_name(path) is None,
{
    reveal_strlit(".yaml");
    assert(".yaml"@ =~= seq!['.', 'y', 'a', 'm', 'l']);
}

/// A name of a file or a directory: one part of a path.
pub open spec fn is_part(part: Seq<char>) -> bool {
    part.len() > 0 && !part.contains('/') && part != seq!['.']
}

/// A directory written without a separator or a dot at its end.
pub open spec fn is_dir(dir: Seq<char>) -> bool {
    &&& dir.len() > 0
    &&& dir.last() != '/'
    &&& !(dir.len() > 1 && dir.last() == '.' && dir[dir.len() - 2] == '/')
}

proof fn lemma_before_last(dir: Seq<char>, part: Seq<char>)
    requires
        !part.contains('/'),
    ensures
        before_last_part(dir + seq!['/'] + part) == dir + seq!['/'],
    decreases part.len(),
{
    let path = dir + seq!['/'] + part;
    if part.len() == 0 {
        assert(path =~= dir + seq!['/']);
        assert(path.last() == '/');
    } else {
        let front = part.drop_last();
        assert(path.last() == part.last());
        assert(part.contains(part[part.len() - 1]));
        if front.contains('/') {
            let k = choose|k: int| 0 <= k < front.len() && front[k] == '/';
            assert(part[k] == '/');
        }
        assert(path.drop_last() =~= dir + seq!['/'] + front);
        lemma_before_last(dir, front);
    }
}

/// A part below a directory stands in that directory.
pub proof fn law_a_path_stands_in_its_directory(dir: Seq<char>, part: Seq<char>)
    requires
        is_dir(dir),
        is_part(part),
    ensures
        parent_of(dir + seq!['/'] + part) == Some(dir),
{
    let path = dir + seq!['/'] + part;
    let n = path.len() as int;
    assert(path.last() == part.last());
    assert(part.contains(part[part.len() - 1]));
    if path.last() == '.' && path[n - 2] == '/' {
        if part.len() >= 2 {
            assert(path[n - 2] == part[part.len() - 2]);
            assert(part.contains(part[part.len() - 2]));
        } else {
            assert(part =~= seq!['.']);
        }
    }
    assert(path_trimmed(path) == path);
    lemma_before_last(dir, part);
    let head = dir + seq!['/'];
    assert(head.last() == '/' && head.len() > 1);
    assert(head.drop_last() =~= dir);
    assert(path_trimmed(head) == path_trimmed(dir));
    assert(path_trimmed(dir) == dir);
}

/// Of a file deleted below `base` the directories above it may be left empty, the nearest
/// first, up to `base`, which is kept.
pub proof fn law_what_a_deletion_may_leave_empty(dir: Seq<char>, part: Seq<char>, base: Seq<char>)
    requires
        is_dir(dir),
        is_part(part),
    ensures
        same_path(dir, base) ==> dirs_below(dir + seq!['/'] + part, base).len() == 0,
        !same_path(dir, base) ==> dirs_below(dir + seq!['/'] + part, base) == seq![dir] + dirs_below(
            dir,
            base,
        ),
{
    law_a_path_stands_in_its_directory(dir, part);
}

proof fn lemma_split_extra(path: Seq<char>, i: int)
    requires
        0 <= i <= path.len(),
    ensures
        split_from(path + seq!['/'], '/', i) == split_from(path, '/', i).push(Seq::empty()),
    decreases path.len() - i,
{
    let longer = path + seq!['/'];
    let n = path.len() as int;
    crate::text::lemma_char_from(path, '/', i);
    crate::text::lemma_char_from(longer, '/', i);
    let at = char_from(path, '/', i);
    let to = char_from(longer, '/', i);
    assert(longer[n] == '/');
    assert forall|k: int| 0 <= k < n implies longer[k] == #[trigger] path[k] by {}
    assert(to == at) by {
        if to < at {
            assert(path[to] != '/');
        }
        if at < to {
            assert(longer[at] != '/');
        }
    }
    assert(longer.subrange(i, at) =~= path.subrange(i, at));
    if at < n {
        lemma_split_extra(path, at + 1);
        assert(split_from(longer, '/', i) =~= split_from(path, '/', i).push(Seq::empty()));
    } else {
        assert(char_from(longer, '/', n + 1) == n + 1);
        reveal_with_fuel(split_from, 2);
        assert(longer.skip(n + 1) =~= Seq::<char>::empty());
        assert(path.skip(i) =~= longer.subrange(i, n));
        assert(split_from(longer, '/', i) =~= split_from(path, '/', i).push(Seq::empty()));
    }
}

/// A separator at its end makes no other path of a path.
pub proof fn law_a_separator_at_the_end_is_nothing(path: Seq<char>)
    requires
        path.len() > 0,
    ensures
        same_path(path + seq!['/'], path),
        same_path(path, path),
{
    let longer = path + seq!['/'];
    assert(longer[0] == path[0]);
    assert(rooted(longer) == rooted(path));
    lemma_split_extra(path, 0);
    let a = split_at_char(path, '/');
    let b = split_at_char(longer, '/');
    assert(b[b.len() - 1].len() == 0);
    lemma_parts_prefix(a, b, a.len() as int);
}

proof fn lemma_parts_prefix(a: Seq<Seq<char>>, b: Seq<Seq<char>>, n: int)
    requires
        n <= a.len() <= b.len(),
        forall|i: int| 0 <= i < a.len() ==> #[trigger] a[i] == b[i],
    ensures
        parts_among(a, n) == parts_among(b, n),
    decreases n,
{
    if n > 0 {
        assert(a[n - 1] == b[n - 1]);
        lemma_parts_prefix(a, b, n - 1);
    }
}

/// A request of the project is kept below the directory it is run in, one of the user's
/// below their configuration.
pub proof fn law_where_requests_are_kept(name: Seq<char>, home: Seq<char>)
    requires
        name.len() > 0 && name[0] != '/',
        home.len() > 0 && home.last() != '/',
    ensures
        scope_path(name, false, Some(home)) == ".ichigo/"@ + name + ".yaml"@,
        scope_path(name, true, Some(home)) == home + "/.config/ichigo/"@ + name + ".yaml"@,
        below(scope_path(name, true, Some(home)), global_path(Some(home))),
{
    reveal_strlit(".ichigo");
    reveal_strlit(".ichigo/");
    reveal_strlit(".yaml");
    reveal_strlit(".config");
    reveal_strlit("ichigo");
    reveal_strlit("/");
    reveal_strlit("/.config/ichigo/");
    assert((name + ".yaml"@)[0] == name[0]);
    assert(scope_path(name, false, Some(home)) =~= ".ichigo/"@ + name + ".yaml"@);
    let base = global_path(Some(home));
    assert(base =~= home + "/"@ + ".config"@ + "/"@ + "ichigo"@);
    let path = scope_path(name, true, Some(home));
    assert(path =~= base + "/"@ + name + ".yaml"@);
    assert(path =~= home + "/.config/ichigo/"@ + name + ".yaml"@);
    assert(path.take(base.len() as int) =~= base);
}

} // verus!
