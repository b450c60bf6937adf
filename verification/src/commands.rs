//! What the command line's subcommands work out before they touch the disk.
use vstd::prelude::*;
use vstd::string::*;

use crate::config::{global_config_path, global_dir, global_path, local_config_path, local_dir, str_opt};
use crate::curl_error::CurlError;
use crate::curl_parse::{from_curl, imported};
use crate::form::scope_path;
use crate::order::Row;
use crate::request::{RequestConfig, RequestView, TextMap};
use crate::strmap::StrMap;
use crate::text::{char_from, chars_of, concat2, concat3, find_char, slice_string, str_eq, texts};
use crate::unicode::{to_uppercase, uppercase};

verus! {

// ─── Variables ────────────────────────────────────────────────────────────────

/// A word of the form `KEY=VALUE`, split at its first equals sign.
pub open spec fn assignment(word: Seq<char>) -> Option<Row> {
    let i = char_from(word, '=', 0);
    if i < word.len() {
        Some((word.take(i), word.skip(i + 1)))
    } else {
        None
    }
}

/// The variables that words assign; of two assignments to one name the later counts.
pub open spec fn assigned(words: Seq<Seq<char>>) -> TextMap
    decreases words.len(),
{
    if words.len() == 0 {
        Map::empty()
    } else {
        match assignment(words.last()) {
            Some((name, value)) => assigned(words.drop_last()).insert(name, value),
            None => assigned(words.drop_last()),
        }
    }
}

/// The words that assign nothing.
pub open spec fn malformed(words: Seq<Seq<char>>) -> Seq<Seq<char>>
    decreases words.len(),
{
    if words.len() == 0 {
        Seq::empty()
    } else if assignment(words.last()) is None {
        malformed(words.drop_last()).push(words.last())
    } else {
        malformed(words.drop_last())
    }
}

/// Reads `KEY=VALUE` words. The words that are of another form come back beside the
/// variables, to be warned of.
pub fn parse_vars(vars: &Vec<String>) -> (r: (StrMap, Vec<String>))
    ensures
        r.0@ == assigned(texts(vars@)),
        texts(r.1@) == malformed(texts(vars@)),
{
    let mut map = StrMap::new();
    let mut bad: Vec<String> = Vec::new();
    let ghost all = texts(vars@);
    let mut i: usize = 0;
    proof {
        assert(all.take(0) =~= Seq::empty());
        assert(texts(bad@) =~= Seq::empty());
    }
    while i < vars.len()
        invariant
            i <= vars.len(),
            all == texts(vars@),
            map@ == assigned(all.take(i as int)),
            texts(bad@) == malformed(all.take(i as int)),
        decreases vars.len() - i,
    {
        let v = chars_of(vars[i].as_str());
        let at: usize = find_char(&v, '=', 0);
        proof {
            assert(all[i as int] == vars@[i as int]@);
            assert(all.take(i + 1).drop_last() =~= all.take(i as int));
            assert(all.take(i + 1).last() == v@);
        }
        if at < v.len() {
            let name = slice_string(&v, 0, at);
            let value = slice_string(&v, at + 1, v.len());
            proof {
                assert(name@ =~= v@.take(at as int));
                assert(value@ =~= v@.skip(at + 1));
            }
            map.insert(name, value);
        } else {
            let ghost before = bad@;
            bad.push(vars[i].clone());
            proof {
                assert(texts(bad@) =~= texts(before).push(v@));
            }
        }
        i = i + 1;
    }
    proof {
        assert(all.take(vars@.len() as int) =~= all);
    }
    (map, bad)
}

/// What is warned of a word that assigns nothing.
pub fn malformed_message(word: &str) -> (r: String)
    ensures
        r@ == "ignoring malformed var '"@ + word@ + "' (expected KEY=VALUE)"@,
{
    concat3("ignoring malformed var '", word, "' (expected KEY=VALUE)")
}

// ─── New requests ─────────────────────────────────────────────────────────────

/// A method that a template gives a body to.
pub open spec fn takes_body(method: Seq<char>) -> bool {
    method == "POST"@ || method == "PUT"@ || method == "PATCH"@
}

/// The end of a template: a body, commented out where the method takes none.
pub open spec fn body_section(method: Seq<char>) -> Seq<char> {
    if takes_body(method) {
        "body:\n  content_type: application/json\n  data: |\n    {\n      \"key\": \"value\"\n    }\n"@
    } else {
        "# body:\n#   content_type: application/json\n#   data: |\n#     {\n#       \"key\": \"value\"\n#     }\n"@
    }
}

/// The text of a new request file.
pub open spec fn template(name: Seq<char>, method: Seq<char>, url: Seq<char>) -> Seq<char> {
    "name: "@ + name + "\nmethod: "@ + method + "\nurl: "@ + url + "\ndescription: \"\"\n\n# Use {{VAR}} anywhere in url, headers, query, or body.\n# Values are filled from --var KEY=VALUE flags or environment variables.\n\nheaders:\n#   Accept: application/json\n#   Authorization: \"Bearer {{TOKEN}}\"\n\nquery:\n#   page: \"1\"\n\n"@
        + body_section(method)
}

/// The text of a new request file.
pub fn build_template(name: &str, method: &str, url: &str) -> (r: String)
    ensures
        r@ == template(name@, method@, url@),
{
    let mut r = "name: ".to_owned();
    r.append(name);
    r.append("\nmethod: ");
    r.append(method);
    r.append("\nurl: ");
    r.append(url);
    r.append(
        "\ndescription: \"\"\n\n# Use {{VAR}} anywhere in url, headers, query, or body.\n# Values are filled from --var KEY=VALUE flags or environment variables.\n\nheaders:\n#   Accept: application/json\n#   Authorization: \"Bearer {{TOKEN}}\"\n\nquery:\n#   page: \"1\"\n\n",
    );
    if str_eq(method, "POST") || str_eq(method, "PUT") || str_eq(method, "PATCH") {
        r.append(
            "body:\n  content_type: application/json\n  data: |\n    {\n      \"key\": \"value\"\n    }\n",
        );
    } else {
        r.append(
            "# body:\n#   content_type: application/json\n#   data: |\n#     {\n#       \"key\": \"value\"\n#     }\n",
        );
    }
    r
}

/// The file of a new request: the method in capitals, and an example URL where none
/// is given.
pub fn new_request(name: &str, method: &str, url: Option<&str>) -> (r: String)
    ensures
        r@ == template(
            name@,
            uppercase(method@),
            match url {
                Some(u) => u@,
                None => "https://example.com"@,
            },
        ),
{
    let method = to_uppercase(method);
    let url = match url {
        Some(u) => u,
        None => "https://example.com",
    };
    build_template(name, method.as_str(), url)
}

/// The request that a command stands for, under a name.
pub fn request_from_curl(name: String, command: &str) -> (r: Result<RequestConfig, CurlError>)
    ensures
        match imported(command@) {
            Ok(c) => r matches Ok(config) && config@ == (RequestView { name: name@, ..c }),
            Err(f) => r matches Err(e) && e@ == f,
        },
{
    match from_curl(command) {
        Ok(config) => {
            let mut config = config;
            config.name = name;
            Ok(config)
        },
        Err(e) => Err(e),
    }
}

// ─── Places ───────────────────────────────────────────────────────────────────

/// The file of a request in a scope.
pub fn path_for(name: &str, global: bool, home: Option<&str>) -> (r: String)
    ensures
        r@ == scope_path(name@, global, str_opt(home)),
{
    if global {
        global_config_path(name, home)
    } else {
        local_config_path(name)
    }
}

/// What is said of a request that is not there.
pub fn not_found_message(name: &str) -> (r: String)
    ensures
        r@ == "Request '"@ + name@ + "' not found"@,
{
    concat3("Request '", name, "' not found")
}

/// What is said of a request that is there already.
pub fn exists_at_message(name: &str, path: &str) -> (r: String)
    ensures
        r@ == "Request '"@ + name@ + "' already exists at "@ + path@,
{
    let head = concat3("Request '", name, "' already exists at ");
    concat2(head.as_str(), path)
}

/// What is said of a chain that is to be load tested.
pub fn chain_test_message(name: &str) -> (r: String)
    ensures
        r@ == "'"@ + name@ + "' is a chain config — testing chains is not supported"@,
{
    concat3("'", name, "' is a chain config — testing chains is not supported")
}

/// Where a copy is read from and written to: both in one scope.
#[derive(Debug, PartialEq, Eq)]
pub struct CopyPlan {
    pub source: String,
    pub target: String,
}

/// Plans a copy, given which of the two files there are. A copy needs its source and
/// must not overwrite.
pub fn plan_copy(
    name: &str,
    new_name: &str,
    global: bool,
    home: Option<&str>,
    source_exists: bool,
    target_exists: bool,
) -> (r: Result<CopyPlan, String>)
    ensures
        ({
            let source = scope_path(name@, global, str_opt(home));
            let target = scope_path(new_name@, global, str_opt(home));
            if !source_exists {
                r matches Err(e) && e@ == "Request '"@ + name@ + "' not found"@
            } else if target_exists {
                r matches Err(e) && e@ == "Request '"@ + new_name@ + "' already exists at "@
                    + target
            } else {
                r matches Ok(plan) && plan.source@ == source && plan.target@ == target
            }
        }),
{
    if !source_exists {
        return Err(not_found_message(name));
    }
    let target = path_for(new_name, global, home);
    if target_exists {
        return Err(exists_at_message(new_name, target.as_str()));
    }
    Ok(CopyPlan { source: path_for(name, global, home), target })
}

/// A path at or below a directory.
pub open spec fn below(path: Seq<char>, dir: Seq<char>) -> bool {
    &&& path.len() >= dir.len()
    &&& path.take(dir.len() as int) == dir
    &&& (path.len() == dir.len() || path[dir.len() as int] == '/' || (dir.len() > 0 && dir.last()
        == '/'))
}

/// The request directory that a file belongs to: the user's where the file is below
/// it, else the project's.
pub fn base_of(path: &str, home: Option<&str>) -> (r: String)
    ensures
        r@ == if below(path@, global_path(str_opt(home))) {
            global_path(str_opt(home))
        } else {
            ".ichigo"@
        },
{
    let dir = global_dir(home);
    let p = chars_of(path);
    let d = chars_of(dir.as_str());
    if p.len() < d.len() {
        return local_dir();
    }
    let head = slice_string(&p, 0, d.len());
    proof {
        assert(head@ =~= path@.take(d@.len() as int));
    }
    if str_eq(head.as_str(), dir.as_str()) && (p.len() == d.len() || p[d.len()] == '/' || (d.len()
        > 0 && d[d.len() - 1] == '/')) {
        dir
    } else {
        local_dir()
    }
}

// ─── Listing ──────────────────────────────────────────────────────────────────

/// What `list` says behind a name: the description, where there is one that is not
/// empty, and the scope.
pub open spec fn list_tail(description: Option<Seq<char>>, global: bool) -> Seq<char> {
    (match description {
        Some(d) if d.len() > 0 => " — "@ + d,
        _ => Seq::empty(),
    }) + (if global {
        " global"@
    } else {
        " local"@
    })
}

/// What `list` says behind a name.
pub fn list_suffix(description: Option<&str>, global: bool) -> (r: String)
    ensures
        r@ == list_tail(str_opt(description), global),
{
    let mut r = String::new();
    match description {
        Some(d) => {
            if !d.is_empty() {
                r.append(" — ");
                r.append(d);
            }
        },
        None => {},
    }
    r.append(
        if global {
            " global"
        } else {
            " local"
        },
    );
    proof {
        assert(r@ =~= list_tail(str_opt(description), global));
    }
    r
}

// ─── Laws ─────────────────────────────────────────────────────────────────────

/// An assignment is taken apart at its first equals sign: the name holds none, and
/// put together again the two halves are the word.
pub proof fn law_an_assignment_splits_at_the_first_equals_sign(word: Seq<char>)
    ensures
        assignment(word) matches Some(row) ==> !row.0.contains('=') && row.0 + "="@ + row.1
            == word,
        assignment(word) is None <==> !word.contains('='),
{
    reveal_strlit("=");
    crate::text::lemma_char_from(word, '=', 0);
    let i = char_from(word, '=', 0);
    if i < word.len() {
        assert(word[i] == '=');
        assert(word.take(i) + "="@ + word.skip(i + 1) =~= word);
    }
}

} // verus!
