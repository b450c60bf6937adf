//! Where requests and preferences are kept, and what the preferences mean.
use vstd::prelude::*;
use vstd::string::*;

use crate::order::{lemma_text_lt_total, lemma_text_lt_trans, str_lt, text_lt};
use crate::text::{
    chars_of, concat2, concat3, contains, decimal, decimal_string, occurs, slice_string, split_at_char,
    split_string, str_eq, texts,
};

pub use crate::request::{Body, ChainConfig, Profile, RequestConfig};

verus! {

// ─── Outside calls ────────────────────────────────────────────────────────────

/// Whether a YAML text has the key at its top level, where it can be read as one
/// document.
pub uninterp spec fn yaml_key(text: Seq<char>, key: Seq<char>) -> Option<bool>;

/// `serde_yaml::from_str` into a `serde_yaml::Value`, then whether `Value::get` finds the
/// key in it; nothing where the text does not parse.
#[verifier::external_body]
fn has_yaml_key(text: &str, key: &str) -> (r: Option<bool>)
    ensures
        r == yaml_key(text@, key@),
{
    let value: serde_yaml::Value = serde_yaml::from_str(text).ok()?;
    Some(value.get(key).is_some())
}

/// How `{:?}` writes a text.
pub uninterp spec fn debug_form(s: Seq<char>) -> Seq<char>;

/// `format!("{:?}")` of a string.
#[verifier::external_body]
pub(crate) fn debug_string(s: &str) -> (r: String)
    ensures
        r@ == debug_form(s@),
{
    format!("{:?}", s)
}

// ─── Paths ────────────────────────────────────────────────────────────────────

/// The preferences file, beside the global requests. Its extension keeps it from
/// being taken for one of them.
pub const USER_CONFIG_FILE: &'static str = "config.toml";

/// A path extended by another: an absolute one takes its place.
pub open spec fn path_joined(base: Seq<char>, rest: Seq<char>) -> Seq<char> {
    if rest.len() > 0 && rest[0] == '/' {
        rest
    } else if base.len() == 0 || base.last() == '/' {
        base + rest
    } else {
        base + "/"@ + rest
    }
}

/// Extends a path by another.
pub fn path_join(base: &str, rest: &str) -> (r: String)
    ensures
        r@ == path_joined(base@, rest@),
{
    let b = chars_of(base);
    let t = chars_of(rest);
    if t.len() > 0 && t[0] == '/' {
        rest.to_owned()
    } else if b.len() == 0 || b[b.len() - 1] == '/' {
        concat2(base, rest)
    } else {
        concat3(base, "/", rest)
    }
}

/// The directory of a project's own requests.
pub fn local_dir() -> (r: String)
    ensures
        r@ == ".ichigo"@,
{
    ".ichigo".to_owned()
}

/// The directory of the user's requests under a home directory.
pub open spec fn global_path(home: Option<Seq<char>>) -> Seq<char> {
    let base = match home {
        Some(h) => h,
        None => "."@,
    };
    path_joined(path_joined(base, ".config"@), "ichigo"@)
}

/// An optional string slice as text.
pub open spec fn str_opt(o: Option<&str>) -> Option<Seq<char>> {
    match o {
        Some(s) => Some(s@),
        None => None,
    }
}

/// The directory of the user's requests; `home` is what the environment names as
/// the home directory.
pub fn global_dir(home: Option<&str>) -> (r: String)
    ensures
        r@ == global_path(str_opt(home)),
{
    let base = match home {
        Some(h) => h,
        None => ".",
    };
    let config = path_join(base, ".config");
    path_join(config.as_str(), "ichigo")
}

/// The directory of the requests of one scope.
pub fn dir_for(global: bool, home: Option<&str>) -> (r: String)
    ensures
        r@ == if global {
            global_path(str_opt(home))
        } else {
            ".ichigo"@
        },
{
    if global {
        global_dir(home)
    } else {
        local_dir()
    }
}

/// The file of a request in a directory.
pub open spec fn request_path(dir: Seq<char>, name: Seq<char>) -> Seq<char> {
    path_joined(dir, name + ".yaml"@)
}

/// The file of a project's request.
pub fn local_config_path(name: &str) -> (r: String)
    ensures
        r@ == request_path(".ichigo"@, name@),
{
    let file = concat2(name, ".yaml");
    path_join(local_dir().as_str(), file.as_str())
}

/// The file of a user's request.
pub fn global_config_path(name: &str, home: Option<&str>) -> (r: String)
    ensures
        r@ == request_path(global_path(str_opt(home)), name@),
{
    let file = concat2(name, ".yaml");
    path_join(global_dir(home).as_str(), file.as_str())
}

/// The file a request's name means, given which of the two there are: the
/// project's wins over the user's.
pub fn resolve_config_path(
    name: &str,
    home: Option<&str>,
    local_exists: bool,
    global_exists: bool,
) -> (r: Option<String>)
    ensures
        local_exists ==> (r matches Some(p) && p@ == request_path(".ichigo"@, name@)),
        !local_exists && global_exists ==> (r matches Some(p) && p@ == request_path(
            global_path(str_opt(home)),
            name@,
        )),
        !local_exists && !global_exists ==> r is None,
{
    if local_exists {
        Some(local_config_path(name))
    } else if global_exists {
        Some(global_config_path(name, home))
    } else {
        None
    }
}

/// A path without what its end does not need: separators, and a dot behind one.
pub open spec fn path_trimmed(path: Seq<char>) -> Seq<char>
    decreases path.len(),
{
    if path.len() > 1 && (path.last() == '/' || (path.last() == '.' && path[path.len() - 2]
        == '/')) {
        path_trimmed(path.drop_last())
    } else {
        path
    }
}

/// A path without the part behind its last separator.
pub open spec fn before_last_part(path: Seq<char>) -> Seq<char>
    decreases path.len(),
{
    if path.len() == 0 || path.last() == '/' {
        path
    } else {
        before_last_part(path.drop_last())
    }
}

/// The directory that a path stands in; the root and the empty path stand in none.
pub open spec fn parent_of(path: Seq<char>) -> Option<Seq<char>> {
    let whole = path_trimmed(path);
    if whole.len() == 0 || whole.last() == '/' {
        None
    } else {
        Some(path_trimmed(before_last_part(whole)))
    }
}

proof fn lemma_path_trimmed(path: Seq<char>)
    ensures
        path_trimmed(path).len() <= path.len(),
    decreases path.len(),
{
    if path.len() > 1 {
        lemma_path_trimmed(path.drop_last());
    }
}

proof fn lemma_before_last_part(path: Seq<char>)
    ensures
        before_last_part(path).len() <= path.len(),
        path.len() > 0 && path.last() != '/' ==> before_last_part(path).len() < path.len(),
    decreases path.len(),
{
    if path.len() > 0 {
        lemma_before_last_part(path.drop_last());
    }
}

proof fn lemma_parent_shorter(path: Seq<char>)
    ensures
        parent_of(path) matches Some(p) ==> p.len() < path.len(),
{
    let whole = path_trimmed(path);
    lemma_path_trimmed(path);
    lemma_before_last_part(whole);
    lemma_path_trimmed(before_last_part(whole));
}

/// The parts of a path among the first `n` pieces: neither nothing nor a dot, but for a
/// dot that the path begins with.
pub open spec fn parts_among(pieces: Seq<Seq<char>>, n: int) -> Seq<Seq<char>>
    decreases n,
{
    if n <= 0 {
        Seq::empty()
    } else if pieces[n - 1].len() == 0 || (n > 1 && pieces[n - 1] == "."@) {
        parts_among(pieces, n - 1)
    } else {
        parts_among(pieces, n - 1).push(pieces[n - 1])
    }
}

/// The parts of a path.
pub open spec fn path_parts(path: Seq<char>) -> Seq<Seq<char>> {
    let pieces = split_at_char(path, '/');
    parts_among(pieces, pieces.len() as int)
}

/// A path from the root.
pub open spec fn rooted(path: Seq<char>) -> bool {
    path.len() > 0 && path[0] == '/'
}

/// Two ways to write one path.
pub open spec fn same_path(a: Seq<char>, b: Seq<char>) -> bool {
    rooted(a) == rooted(b) && path_parts(a) == path_parts(b)
}

fn parts_of(path: &str) -> (r: Vec<String>)
    ensures
        texts(r@) == path_parts(path@),
{
    let pieces = split_string(path, '/');
    let ghost all = texts(pieces@);
    let mut r: Vec<String> = Vec::new();
    let mut i: usize = 0;
    proof {
        assert(texts(r@) =~= Seq::empty());
    }
    while i < pieces.len()
        invariant
            i <= pieces.len(),
            all == texts(pieces@),
            texts(r@) == parts_among(all, i as int),
        decreases pieces.len() - i,
    {
        proof {
            assert(all[i as int] == pieces@[i as int]@);
        }
        let piece = pieces[i].as_str();
        let nothing = chars_of(piece).len() == 0;
        if !(nothing || (i > 0 && str_eq(piece, "."))) {
            let ghost before = texts(r@);
            let part = piece.to_owned();
            r.push(part);
            proof {
                assert(texts(r@) =~= before.push(all[i as int]));
            }
        }
        i = i + 1;
    }
    r
}

fn is_rooted(path: &str) -> (r: bool)
    ensures
        r == rooted(path@),
{
    let v = chars_of(path);
    v.len() > 0 && v[0] == '/'
}

fn is_same_path(a: &str, b: &str) -> (r: bool)
    ensures
        r == same_path(a@, b@),
{
    if is_rooted(a) != is_rooted(b) {
        return false;
    }
    let x = parts_of(a);
    let y = parts_of(b);
    proof {
        assert(texts(x@).len() == x@.len() && texts(y@).len() == y@.len());
    }
    if x.len() != y.len() {
        return false;
    }
    let mut i: usize = 0;
    while i < x.len()
        invariant
            i <= x.len() == y.len(),
            texts(x@) == path_parts(a@),
            texts(y@) == path_parts(b@),
            forall|j: int| 0 <= j < i ==> texts(x@)[j] == #[trigger] texts(y@)[j],
        decreases x.len() - i,
    {
        if !str_eq(x[i].as_str(), y[i].as_str()) {
            proof {
                assert(texts(x@)[i as int] != texts(y@)[i as int]);
            }
            return false;
        }
        i = i + 1;
    }
    proof {
        assert(texts(x@) =~= texts(y@));
    }
    true
}

/// The directories above a path that lie below `base`, the nearest first: those
/// that a deletion may leave empty.
pub open spec fn dirs_below(path: Seq<char>, base: Seq<char>) -> Seq<Seq<char>>
    decreases path.len(),
    via dirs_below_shrinks
{
    match parent_of(path) {
        None => Seq::empty(),
        Some(p) => if same_path(p, base) {
            Seq::empty()
        } else {
            seq![p] + dirs_below(p, base)
        },
    }
}

#[via_fn]
proof fn dirs_below_shrinks(path: Seq<char>, base: Seq<char>) {
    lemma_parent_shorter(path);
}

/// How much of the first `n` characters of a path is left without what their end does
/// not need.
fn trimmed_end(v: &Vec<char>, n: usize) -> (r: usize)
    requires
        n <= v.len(),
    ensures
        r <= n,
        v@.take(r as int) == path_trimmed(v@.take(n as int)),
{
    let mut r: usize = n;
    while r > 1 && (v[r - 1] == '/' || (v[r - 1] == '.' && v[r - 2] == '/'))
        invariant
            r <= n <= v.len(),
            path_trimmed(v@.take(r as int)) == path_trimmed(v@.take(n as int)),
        decreases r,
    {
        proof {
            assert(v@.take(r as int).drop_last() =~= v@.take(r - 1));
        }
        r = r - 1;
    }
    r
}

fn parent(path: &str) -> (r: Option<String>)
    ensures
        r is Some <==> parent_of(path@) is Some,
        r matches Some(p) ==> parent_of(path@) == Some(p@) && p@.len() < path@.len(),
{
    let v = chars_of(path);
    let whole: usize = trimmed_end(&v, v.len());
    proof {
        assert(v@.take(v@.len() as int) =~= path@);
        lemma_parent_shorter(path@);
    }
    if whole == 0 || v[whole - 1] == '/' {
        return None;
    }
    let mut n: usize = whole;
    while n > 0 && v[n - 1] != '/'
        invariant
            n <= whole <= v.len(),
            before_last_part(v@.take(n as int)) == before_last_part(v@.take(whole as int)),
        decreases n,
    {
        proof {
            assert(v@.take(n as int).drop_last() =~= v@.take(n - 1));
        }
        n = n - 1;
    }
    let end: usize = trimmed_end(&v, n);
    proof {
        assert(v@.subrange(0, end as int) =~= v@.take(end as int));
    }
    Some(slice_string(&v, 0, end))
}

/// The directories above a path that lie below `base`, the nearest first.
pub fn parents_below(path: &str, base: &str) -> (r: Vec<String>)
    ensures
        texts(r@) == dirs_below(path@, base@),
{
    let mut dirs: Vec<String> = Vec::new();
    let mut at = path.to_owned();
    proof {
        assert(texts(dirs@) + dirs_below(at@, base@) =~= dirs_below(path@, base@));
    }
    loop
        invariant_except_break
            texts(dirs@) + dirs_below(at@, base@) == dirs_below(path@, base@),
        ensures
            texts(dirs@) == dirs_below(path@, base@),
        decreases at@.len(),
    {
        let up = parent(at.as_str());
        match up {
            None => {
                proof {
                    assert(texts(dirs@) + dirs_below(at@, base@) =~= texts(dirs@));
                }
                break;
            },
            Some(p) => {
                if is_same_path(p.as_str(), base) {
                    proof {
                        assert(texts(dirs@) + dirs_below(at@, base@) =~= texts(dirs@));
                    }
                    break;
                }
                let ghost before = texts(dirs@);
                dirs.push(p.clone());
                proof {
                    assert(texts(dirs@) =~= before.push(p@));
                    assert(texts(dirs@) + dirs_below(p@, base@) =~= before + (seq![p@]
                        + dirs_below(p@, base@)));
                }
                at = p;
            },
        }
    }
    dirs
}

/// A stored text describes a chain of requests, given whether one of its top-level keys
/// is `steps`. Of a text that cannot be read the letters decide.
pub open spec fn chain_by_key(steps: Option<bool>, content: Seq<char>) -> bool {
    match steps {
        Some(given) => given,
        None => occurs(content, "steps:"@),
    }
}

/// Whether a stored text describes a chain of requests, given whether one of its
/// top-level keys is `steps`, or nothing where it cannot be read.
pub fn is_chain_by_key(steps: Option<bool>, content: &str) -> (r: bool)
    ensures
        r == chain_by_key(steps, content@),
{
    match steps {
        Some(given) => given,
        None => contains(content, "steps:"),
    }
}

/// A stored text describes a chain of requests rather than one: it has the key `steps`.
pub fn is_chain_text(content: &str) -> (r: bool)
    ensures
        r == chain_by_key(yaml_key(content@, "steps"@), content@),
{
    is_chain_by_key(has_yaml_key(content, "steps"), content)
}

// ─── Listing requests ─────────────────────────────────────────────────────────

/// A request by name, and whether it is the user's rather than the project's.
#[derive(Debug, PartialEq, Eq)]
pub struct RequestEntry {
    pub name: String,
    pub global: bool,
}

impl View for RequestEntry {
    type V = (Seq<char>, bool);

    open spec fn view(&self) -> (Seq<char>, bool) {
        (self.name@, self.global)
    }
}

/// A list of entries as text.
pub open spec fn entry_views(v: Seq<RequestEntry>) -> Seq<(Seq<char>, bool)> {
    v.map_values(|e: RequestEntry| e@)
}

/// The request a file under a request directory holds: its path without the
/// `.yaml` that it must end in. A file that is only an extension holds none.
pub open spec fn request_name(path: Seq<char>) -> Option<Seq<char>> {
    let n = path.len();
    if n > 5 && path.skip(n - 5) == ".yaml"@ && path[n - 6] != '/' {
        Some(path.take(n - 5))
    } else {
        None
    }
}

/// Some entry goes by the name.
pub open spec fn listed(entries: Seq<(Seq<char>, bool)>, name: Seq<char>) -> bool {
    exists|i: int| 0 <= i < entries.len() && (#[trigger] entries[i]).0 == name
}

/// The entries with those of more files behind them, each name once.
pub open spec fn with_files(
    entries: Seq<(Seq<char>, bool)>,
    files: Seq<Seq<char>>,
    global: bool,
) -> Seq<(Seq<char>, bool)>
    decreases files.len(),
{
    if files.len() == 0 {
        entries
    } else {
        let before = with_files(entries, files.drop_last(), global);
        match request_name(files.last()) {
            Some(name) => if listed(before, name) {
                before
            } else {
                before.push((name, global))
            },
            None => before,
        }
    }
}

/// An entry put before the first one whose name comes after its own.
pub open spec fn insert_entry(entries: Seq<(Seq<char>, bool)>, e: (Seq<char>, bool)) -> Seq<
    (Seq<char>, bool),
>
    decreases entries.len(),
{
    if entries.len() == 0 {
        seq![e]
    } else if text_lt(e.0, entries.last().0) {
        insert_entry(entries.drop_last(), e).push(entries.last())
    } else {
        entries.push(e)
    }
}

/// Entries in name order.
pub open spec fn sort_entries(entries: Seq<(Seq<char>, bool)>) -> Seq<(Seq<char>, bool)>
    decreases entries.len(),
{
    if entries.len() == 0 {
        entries
    } else {
        insert_entry(sort_entries(entries.drop_last()), entries.last())
    }
}

/// All requests there are: the project's, then those of the user's whose name no
/// request of the project has, in name order.
pub open spec fn all_requests(local: Seq<Seq<char>>, global: Seq<Seq<char>>) -> Seq<
    (Seq<char>, bool),
> {
    sort_entries(with_files(with_files(Seq::empty(), local, false), global, true))
}

fn name_of_file(path: &str) -> (r: Option<String>)
    ensures
        r is Some <==> request_name(path@) is Some,
        r matches Some(n) ==> request_name(path@) == Some(n@),
{
    let v = chars_of(path);
    let n: usize = v.len();
    if n <= 5 {
        return None;
    }
    let tail = slice_string(&v, n - 5, n);
    proof {
        assert(v@.subrange(n - 5, n as int) =~= path@.skip(n - 5));
        assert(v@.subrange(0, n - 5) =~= path@.take(n - 5));
    }
    if str_eq(tail.as_str(), ".yaml") && v[n - 6] != '/' {
        Some(slice_string(&v, 0, n - 5))
    } else {
        None
    }
}

fn is_listed(entries: &Vec<RequestEntry>, name: &str) -> (r: bool)
    ensures
        r == listed(entry_views(entries@), name@),
{
    let mut i: usize = 0;
    while i < entries.len()
        invariant
            i <= entries.len(),
            forall|j: int| 0 <= j < i ==> (#[trigger] entry_views(entries@)[j]).0 != name@,
        decreases entries.len() - i,
    {
        if str_eq(entries[i].name.as_str(), name) {
            proof {
                assert(entry_views(entries@)[i as int].0 == name@);
            }
            return true;
        }
        i = i + 1;
    }
    false
}

fn collect_entries(entries: &mut Vec<RequestEntry>, files: &Vec<String>, global: bool)
    ensures
        entry_views(final(entries)@) == with_files(
            entry_views(old(entries)@),
            texts(files@),
            global,
        ),
{
    let ghost all = texts(files@);
    let ghost held = entry_views(entries@);
    let mut i: usize = 0;
    while i < files.len()
        invariant
            i <= files.len(),
            all == texts(files@),
            entry_views(entries@) == with_files(held, all.take(i as int), global),
        decreases files.len() - i,
    {
        proof {
            assert(all.take(i + 1).drop_last() =~= all.take(i as int));
            assert(all[i as int] == files@[i as int]@);
        }
        match name_of_file(files[i].as_str()) {
            Some(name) => {
                if !is_listed(entries, name.as_str()) {
                    let ghost before = entry_views(entries@);
                    entries.push(RequestEntry { name, global });
                    proof {
                        assert(entry_views(entries@) =~= before.push((name@, global)));
                    }
                }
            },
            None => {},
        }
        i = i + 1;
    }
    proof {
        assert(all.take(files@.len() as int) =~= all);
    }
}

fn place_entry(entries: Vec<RequestEntry>, e: RequestEntry) -> (r: Vec<RequestEntry>)
    ensures
        entry_views(r@) == insert_entry(entry_views(entries@), e@),
    decreases entries.len(),
{
    let mut rest = entries;
    match rest.pop() {
        None => {
            let mut r: Vec<RequestEntry> = Vec::new();
            r.push(e);
            proof {
                assert(entry_views(r@) =~= insert_entry(entry_views(entries@), e@));
            }
            r
        },
        Some(last) => {
            proof {
                assert(entry_views(rest@) =~= entry_views(entries@).drop_last());
                assert(entry_views(entries@).last() == last@);
            }
            if str_lt(e.name.as_str(), last.name.as_str()) {
                let mut r = place_entry(rest, e);
                let ghost before = entry_views(r@);
                r.push(last);
                proof {
                    assert(entry_views(r@) =~= before.push(last@));
                }
                r
            } else {
                rest.push(last);
                rest.push(e);
                proof {
                    assert(entry_views(rest@) =~= entry_views(entries@).push(e@));
                }
                rest
            }
        },
    }
}

fn order_entries(entries: Vec<RequestEntry>) -> (r: Vec<RequestEntry>)
    ensures
        entry_views(r@) == sort_entries(entry_views(entries@)),
    decreases entries.len(),
{
    let mut rest = entries;
    match rest.pop() {
        None => {
            proof {
                assert(entry_views(rest@) =~= sort_entries(entry_views(entries@)));
            }
            rest
        },
        Some(last) => {
            proof {
                assert(entry_views(rest@) =~= entry_views(entries@).drop_last());
            }
            let sorted = order_entries(rest);
            place_entry(sorted, last)
        },
    }
}

/// Lists every request, from the files found under the two request directories
/// (paths relative to them): by name, a project's request hiding the user's of the
/// same name.
pub fn list_requests(local: &Vec<String>, global: &Vec<String>) -> (r: Vec<RequestEntry>)
    ensures
        entry_views(r@) == all_requests(texts(local@), texts(global@)),
{
    let mut entries: Vec<RequestEntry> = Vec::new();
    proof {
        assert(entry_views(entries@) =~= Seq::empty());
    }
    collect_entries(&mut entries, local, false);
    collect_entries(&mut entries, global, true);
    order_entries(entries)
}

proof fn lemma_insert_entry(entries: Seq<(Seq<char>, bool)>, e: (Seq<char>, bool))
    requires
        names_rise(entries),
        !listed(entries, e.0),
    ensures
        names_rise(insert_entry(entries, e)),
        forall|x: (Seq<char>, bool)|
            #[trigger] insert_entry(entries, e).contains(x) <==> (entries.contains(x) || x == e),
    decreases entries.len(),
{
    if entries.len() == 0 {
        assert(seq![e][0] == e);
    } else {
        let last = entries.last();
        let n = entries.len() - 1;
        assert(entries[n].0 != e.0);
        lemma_text_lt_total(e.0, last.0);
        if text_lt(e.0, last.0) {
            let front = entries.drop_last();
            assert forall|i: int, j: int| 0 <= i < j < front.len() implies text_lt(
                #[trigger] front[i].0,
                #[trigger] front[j].0,
            ) by {
                assert(text_lt(entries[i].0, entries[j].0));
            }
            assert(!listed(front, e.0)) by {
                if listed(front, e.0) {
                    let i = choose|i: int| 0 <= i < front.len() && (#[trigger] front[i]).0 == e.0;
                    assert(entries[i].0 == e.0);
                }
            }
            lemma_insert_entry(front, e);
            let part = insert_entry(front, e);
            let whole = part.push(last);
            assert forall|i: int, j: int| 0 <= i < j < whole.len() implies text_lt(
                #[trigger] whole[i].0,
                #[trigger] whole[j].0,
            ) by {
                if j < part.len() {
                    assert(text_lt(part[i].0, part[j].0));
                } else {
                    assert(part.contains(part[i]));
                    if part[i] != e {
                        assert(front.contains(part[i]));
                        let k = choose|k: int| 0 <= k < front.len() && front[k] == part[i];
                        assert(text_lt(entries[k].0, entries[n].0));
                    }
                }
            }
            assert forall|x: (Seq<char>, bool)|
                whole.contains(x) <==> (entries.contains(x) || x == e) by {
                if whole.contains(x) {
                    let i = choose|i: int| 0 <= i < whole.len() && whole[i] == x;
                    if i < part.len() {
                        assert(part.contains(x));
                        if x != e {
                            assert(front.contains(x));
                            let k = choose|k: int| 0 <= k < front.len() && front[k] == x;
                            assert(entries[k] == x);
                        }
                    } else {
                        assert(entries[n] == x);
                    }
                }
                if entries.contains(x) || x == e {
                    if x == last {
                        assert(whole[part.len() as int] == x);
                    } else {
                        if x != e {
                            let k = choose|k: int| 0 <= k < entries.len() && entries[k] == x;
                            assert(front[k] == x);
                            assert(front.contains(x));
                        }
                        assert(insert_entry(front, e).contains(x));
                        let i = choose|i: int| 0 <= i < part.len() && part[i] == x;
                        assert(whole[i] == x);
                    }
                }
            }
        } else {
            let whole = entries.push(e);
            assert forall|i: int, j: int| 0 <= i < j < whole.len() implies text_lt(
                #[trigger] whole[i].0,
                #[trigger] whole[j].0,
            ) by {
                if j < entries.len() {
                    assert(text_lt(entries[i].0, entries[j].0));
                } else if i < n {
                    assert(text_lt(entries[i].0, entries[n].0));
                    lemma_text_lt_trans(entries[i].0, last.0, e.0);
                }
            }
            assert forall|x: (Seq<char>, bool)|
                whole.contains(x) <==> (entries.contains(x) || x == e) by {
                if whole.contains(x) {
                    let i = choose|i: int| 0 <= i < whole.len() && whole[i] == x;
                    if i < entries.len() {
                        assert(entries[i] == x);
                    }
                }
                if entries.contains(x) {
                    let k = choose|k: int| 0 <= k < entries.len() && entries[k] == x;
                    assert(whole[k] == x);
                }
                if x == e {
                    assert(whole[entries.len() as int] == x);
                }
            }
        }
    }
}

/// The names come in strictly rising order.
pub open spec fn names_rise(entries: Seq<(Seq<char>, bool)>) -> bool {
    forall|i: int, j: int|
        0 <= i < j < entries.len() ==> text_lt(#[trigger] entries[i].0, #[trigger] entries[j].0)
}

/// No name occurs twice.
pub open spec fn names_unique(entries: Seq<(Seq<char>, bool)>) -> bool {
    forall|i: int, j: int|
        0 <= i < j < entries.len() ==> (#[trigger] entries[i]).0 != (#[trigger] entries[j]).0
}

proof fn lemma_sort_entries(entries: Seq<(Seq<char>, bool)>)
    requires
        names_unique(entries),
    ensures
        names_rise(sort_entries(entries)),
        forall|x: (Seq<char>, bool)| sort_entries(entries).contains(x) <==> entries.contains(x),
    decreases entries.len(),
{
    if entries.len() > 0 {
        let front = entries.drop_last();
        let e = entries.last();
        assert forall|i: int, j: int| 0 <= i < j < front.len() implies (#[trigger] front[i]).0 != (
        #[trigger] front[j]).0 by {
            assert(entries[i].0 != entries[j].0);
        }
        lemma_sort_entries(front);
        let sorted = sort_entries(front);
        assert(!listed(sorted, e.0)) by {
            if listed(sorted, e.0) {
                let i = choose|i: int| 0 <= i < sorted.len() && (#[trigger] sorted[i]).0 == e.0;
                assert(sorted.contains(sorted[i]));
                assert(front.contains(sorted[i]));
                let k = choose|k: int| 0 <= k < front.len() && front[k] == sorted[i];
                assert(entries[k].0 != entries[entries.len() - 1].0);
            }
        }
        lemma_insert_entry(sorted, e);
        assert forall|x: (Seq<char>, bool)|
            sort_entries(entries).contains(x) <==> entries.contains(x) by {
            assert(sort_entries(entries).contains(x) <==> (sorted.contains(x) || x == e));
            if entries.contains(x) {
                let k = choose|k: int| 0 <= k < entries.len() && entries[k] == x;
                if k < front.len() {
                    assert(front[k] == x);
                    assert(front.contains(x));
                }
            }
            if sort_entries(entries).contains(x) {
                if x == e {
                    assert(entries[entries.len() - 1] == x);
                } else {
                    assert(sorted.contains(x));
                    assert(front.contains(x));
                    let k = choose|k: int| 0 <= k < front.len() && front[k] == x;
                    assert(entries[k] == x);
                }
            }
        }
    }
}

proof fn lemma_with_files(
    entries: Seq<(Seq<char>, bool)>,
    files: Seq<Seq<char>>,
    global: bool,
    name: Seq<char>,
)
    requires
        names_unique(entries),
    ensures
        names_unique(with_files(entries, files, global)),
        listed(entries, name) ==> with_files(entries, files, global).contains((name, global))
            == entries.contains((name, global)),
        with_files(entries, files, global).contains((name, !global)) == entries.contains(
            (name, !global),
        ),
        !listed(entries, name) && (exists|i: int|
            0 <= i < files.len() && request_name(#[trigger] files[i]) == Some(name)) ==> with_files(
            entries,
            files,
            global,
        ).contains((name, global)),
        listed(with_files(entries, files, global), name) <==> (listed(entries, name) || exists|
            i: int,
        |
            0 <= i < files.len() && request_name(#[trigger] files[i]) == Some(name)),
    decreases files.len(),
{
    let after = with_files(entries, files, global);
    if files.len() > 0 {
        let front = files.drop_last();
        lemma_with_files(entries, front, global, name);
        let before = with_files(entries, front, global);
        let last = request_name(files.last());
        assert(files[files.len() - 1] == files.last());
        assert forall|i: int| 0 <= i < front.len() implies front[i] == #[trigger] files[i] by {}
        if last is Some && !listed(before, last->0) {
            let m = last->0;
            assert(after == before.push((m, global)));
            assert forall|i: int, j: int| 0 <= i < j < after.len() implies (#[trigger] after[i]).0
                != (#[trigger] after[j]).0 by {
                if j == before.len() {
                    assert(before[i].0 != m);
                } else {
                    assert(before[i].0 != before[j].0);
                }
            }
            assert forall|x: (Seq<char>, bool)| before.contains(x) implies after.contains(x) by {
                let k = choose|k: int| 0 <= k < before.len() && before[k] == x;
                assert(after[k] == x);
            }
            if after.contains((name, !global)) {
                let k = choose|k: int| 0 <= k < after.len() && after[k] == (name, !global);
                assert(before[k] == (name, !global));
                assert(before.contains((name, !global)));
            }
            assert(after[before.len() as int] == (m, global));
            assert(after.contains((m, global)));
            if listed(before, name) {
                let k = choose|k: int| 0 <= k < before.len() && (#[trigger] before[k]).0 == name;
                assert(after[k].0 == name);
            }
            if m == name {
                assert(after[before.len() as int].0 == name);
            }
            if listed(entries, name) {
                assert(m != name);
                if after.contains((name, global)) {
                    let k = choose|k: int| 0 <= k < after.len() && after[k] == (name, global);
                    assert(before[k] == (name, global));
                    assert(before.contains((name, global)));
                }
            }
            if listed(after, name) {
                let k = choose|k: int| 0 <= k < after.len() && (#[trigger] after[k]).0 == name;
                if k < before.len() {
                    assert(before[k].0 == name);
                } else {
                    assert(request_name(files[files.len() - 1]) == Some(name));
                }
            }
        } else {
            assert(after == before);
            if last == Some(name) {
                assert(listed(before, name));
                if !listed(entries, name) {
                    let i = choose|i: int|
                        0 <= i < front.len() && request_name(#[trigger] front[i]) == Some(name);
                    assert(request_name(files[i]) == Some(name));
                }
            }
        }
        if exists|i: int| 0 <= i < files.len() && request_name(#[trigger] files[i]) == Some(name) {
            let i = choose|i: int|
                0 <= i < files.len() && request_name(#[trigger] files[i]) == Some(name);
            if i < front.len() {
                assert(request_name(front[i]) == Some(name));
            }
        }
        if exists|i: int| 0 <= i < front.len() && request_name(#[trigger] front[i]) == Some(name) {
            let i = choose|i: int|
                0 <= i < front.len() && request_name(#[trigger] front[i]) == Some(name);
            assert(request_name(files[i]) == Some(name));
        }
    }
}

/// One of the files stores a request under `name`.
pub open spec fn stores(files: Seq<Seq<char>>, name: Seq<char>) -> bool {
    exists|i: int| 0 <= i < files.len() && request_name(#[trigger] files[i]) == Some(name)
}

/// Requests are listed by name, each name once. A request of the project is listed
/// exactly where one of its files stores it; one of the user exactly where a file of
/// the user's stores it and none of the project's does. Nothing else is listed.
pub proof fn law_requests_are_listed_once_local_first(
    local: Seq<Seq<char>>,
    global: Seq<Seq<char>>,
    name: Seq<char>,
)
    ensures
        names_rise(all_requests(local, global)),
        all_requests(local, global).contains((name, false)) <==> stores(local, name),
        all_requests(local, global).contains((name, true)) <==> stores(global, name) && !stores(
            local,
            name,
        ),
{
    let none = Seq::<(Seq<char>, bool)>::empty();
    let first = with_files(none, local, false);
    let both = with_files(first, global, true);
    lemma_with_files(none, local, false, name);
    lemma_with_files(first, global, true, name);
    lemma_sort_entries(both);
    assert(!none.contains((name, true)));
    assert(!listed(none, name));
    if first.contains((name, false)) {
        let k = choose|k: int| 0 <= k < first.len() && first[k] == (name, false);
        assert(first[k].0 == name);
    }
    if both.contains((name, true)) {
        let k = choose|k: int| 0 <= k < both.len() && both[k] == (name, true);
        assert(both[k].0 == name);
    }
}

// ─── Preferences ──────────────────────────────────────────────────────────────

/// The list pane's share of the width where nothing says otherwise, in percent.
pub const DEFAULT_SPLIT_PCT: u16 = 35;

/// The least share a pane may be given.
pub const MIN_SPLIT_PCT: u16 = 15;

/// The greatest share the list pane may be given.
pub const MAX_SPLIT_PCT: u16 = 85;

/// The `[keys]` section of the preferences as written.
#[derive(Debug, PartialEq, Eq)]
pub struct KeysFile {
    pub insert_escape: Option<String>,
}

/// The `[layout]` section of the preferences as written.
#[derive(Debug, PartialEq, Eq)]
pub struct LayoutFile {
    pub split_pct: Option<u16>,
}

/// The preferences as written.
#[derive(Debug, PartialEq, Eq)]
pub struct UserConfigFile {
    pub keys: KeysFile,
    pub layout: LayoutFile,
}

/// Key preferences, checked.
#[derive(Debug, Clone, Copy, PartialEq, Eq)]
pub struct Keys {
    /// Two keys that leave insert mode when typed one after the other.
    pub insert_escape: Option<(char, char)>,
}

impl Default for Keys {
    /// Only `Esc` leaves insert mode.
    fn default() -> (r: Keys)
        ensures
            r.insert_escape is None,
    {
        Keys { insert_escape: None }
    }
}

/// The preferences, checked.
#[derive(Debug, Clone, Copy, PartialEq, Eq)]
pub struct UserConfig {
    pub keys: Keys,
    /// The list pane's share of the width, in percent.
    pub split_pct: u16,
}

/// A preference that cannot be used.
#[derive(Debug, PartialEq, Eq)]
pub enum PreferenceError {
    SplitOutOfRange(u16),
    EscapeLength(String),
}

impl PreferenceError {
    /// The sentence that reports this error.
    pub fn message(&self) -> (r: String)
        ensures
            r@ == match self {
                PreferenceError::SplitOutOfRange(pct) =>
                    "layout.split_pct must be between 15 and 85 (got "@ + decimal(*pct as nat)
                    + "); it is the request list's share of the width as a percentage"@,
                PreferenceError::EscapeLength(seq) =>
                    "keys.insert_escape must be exactly two characters (got "@ + debug_form(seq@)
                    + "); omit the key to leave Esc as the only way out of insert mode"@,
            },
    {
        match self {
            PreferenceError::SplitOutOfRange(pct) => {
                let n = decimal_string(*pct as u128);
                concat3(
                    "layout.split_pct must be between 15 and 85 (got ",
                    n.as_str(),
                    "); it is the request list's share of the width as a percentage",
                )
            },
            PreferenceError::EscapeLength(seq) => {
                let shown = debug_string(seq.as_str());
                concat3(
                    "keys.insert_escape must be exactly two characters (got ",
                    shown.as_str(),
                    "); omit the key to leave Esc as the only way out of insert mode",
                )
            },
        }
    }
}

impl Keys {
    /// Checks the key preferences: a sequence has exactly two characters.
    pub fn from_file(keys: KeysFile) -> (r: Result<Keys, PreferenceError>)
        ensures
            match keys.insert_escape {
                None => r matches Ok(k) && k.insert_escape is None,
                Some(seq) => if seq@.len() == 2 {
                    r matches Ok(k) && k.insert_escape == Some((seq@[0], seq@[1]))
                } else {
                    r matches Err(PreferenceError::EscapeLength(s)) && s@ == seq@
                },
            },
    {
        match keys.insert_escape {
            None => Ok(Keys { insert_escape: None }),
            Some(seq) => {
                let v = chars_of(seq.as_str());
                if v.len() == 2 {
                    Ok(Keys { insert_escape: Some((v[0], v[1])) })
                } else {
                    Err(PreferenceError::EscapeLength(seq))
                }
            },
        }
    }
}

/// What every preference means where the file does not say.
pub open spec fn default_preferences() -> UserConfig {
    UserConfig { keys: Keys { insert_escape: None }, split_pct: DEFAULT_SPLIT_PCT }
}

impl UserConfig {
    /// What every preference means where the file does not say.
    pub fn defaults() -> (r: UserConfig)
        ensures
            r == default_preferences(),
            MIN_SPLIT_PCT <= r.split_pct <= MAX_SPLIT_PCT,
    {
        UserConfig { keys: Keys { insert_escape: None }, split_pct: DEFAULT_SPLIT_PCT }
    }

    /// Checks the preferences. A value out of range is refused, not clamped; the
    /// layout is looked at before the keys.
    pub fn from_file(file: UserConfigFile) -> (r: Result<UserConfig, PreferenceError>)
        ensures
            match file.layout.split_pct {
                Some(pct) if !(MIN_SPLIT_PCT <= pct <= MAX_SPLIT_PCT) => r == Err::<
                    UserConfig,
                    PreferenceError,
                >(PreferenceError::SplitOutOfRange(pct)),
                _ => match file.keys.insert_escape {
                    Some(seq) if seq@.len() != 2 => r matches Err(PreferenceError::EscapeLength(s))
                        && s@ == seq@,
                    _ => {
                        &&& r matches Ok(c)
                        &&& r->Ok_0.split_pct == match file.layout.split_pct {
                            Some(pct) => pct,
                            None => DEFAULT_SPLIT_PCT,
                        }
                        &&& r->Ok_0.keys.insert_escape == match file.keys.insert_escape {
                            Some(seq) => Some((seq@[0], seq@[1])),
                            None => None,
                        }
                    },
                },
            },
    {
        let split_pct: u16 = match file.layout.split_pct {
            None => DEFAULT_SPLIT_PCT,
            Some(pct) => {
                if MIN_SPLIT_PCT <= pct && pct <= MAX_SPLIT_PCT {
                    pct
                } else {
                    return Err(PreferenceError::SplitOutOfRange(pct));
                }
            },
        };
        match Keys::from_file(file.keys) {
            Ok(keys) => Ok(UserConfig { keys, split_pct }),
            Err(e) => Err(e),
        }
    }
}

} // verus!
