//! What holds of a request copied as a command.
use vstd::prelude::*;
use vstd::string::*;

use crate::curl_error::Fault;
use crate::curl_laws::{command_words, flat, head_words, law_a_command_splits_into_its_words, lemma_flat};
use crate::curl_parse::command_read;
use crate::curl_render::{built_url, filled_rows, flag_rows, plain_word, rendered};
use crate::order::sort_rows;
use crate::request::{RequestView, TextMap};
use crate::shell::words;
use crate::strmap::{has_listing, listing};
use crate::unicode::uppercase;
use crate::vars::filled;

verus! {

/// The words hold a flag with that value right behind it.
pub open spec fn has_flag(w: Seq<Seq<char>>, flag: Seq<char>, value: Seq<char>) -> bool {
    exists|i: int| 0 <= i < w.len() - 1 && #[trigger] w[i] == flag && w[i + 1] == value
}

/// How many words a command has before its flags: the URL last.
pub open spec fn words_before_flags(method: Seq<char>) -> int {
    if method == "GET"@ {
        2
    } else {
        4
    }
}

proof fn lemma_flag_words(c: RequestView, vars: TextMap, env: TextMap, i: int)
    requires
        0 <= i < flag_rows(listing(c.headers), c.body, vars, env).len(),
    ensures
        ({
            let w = command_words(c, vars, env);
            let flags = flag_rows(listing(c.headers), c.body, vars, env);
            let at = words_before_flags(uppercase(c.method)) + 2 * i;
            &&& w.len() == words_before_flags(uppercase(c.method)) + 2 * flags.len()
            &&& w[at] == flags[i].0 && w[at + 1] == flags[i].1
        }),
{
    let flags = flag_rows(listing(c.headers), c.body, vars, env);
    lemma_flat(flags, i);
}

/// A command of a request that goes by one word as its method begins with curl, names the
/// method where it is not GET, and then the URL; behind that it gives every header, and
/// where there is a body its content type and its data last: all of them with their
/// placeholders filled in, and nothing else.
pub proof fn law_a_copied_command_says_everything(
    c: RequestView,
    vars: TextMap,
    env: TextMap,
    name: Seq<char>,
)
    requires
        plain_word(uppercase(c.method)),
        has_listing(c.headers),
    ensures
        words(rendered(c, vars, env)) matches Ok(w) && {
            let n = words_before_flags(uppercase(c.method));
            &&& w.len() == n + 2 * listing(c.headers).len() + (if c.body is Some {
                4int
            } else {
                0
            })
            &&& w[0] == "curl"@
            &&& n == 4 ==> w[1] == "-X"@ && w[2] == uppercase(c.method)
            &&& listing(c.query).len() == 0 ==> w[n - 1] == filled(c.url, vars, env)
            &&& c.headers.dom().contains(name) ==> has_flag(
                w,
                "-H"@,
                filled(name, vars, env) + ": "@ + filled(c.headers[name], vars, env),
            )
            &&& c.body matches Some(b) ==> w[w.len() - 4] == "-H"@ && w[w.len() - 3] == "Content-Type: "@
                + b.content_type && w[w.len() - 2] == "--data-raw"@ && w[w.len() - 1] == filled(
                b.data,
                vars,
                env,
            )
        },
{
    law_a_command_splits_into_its_words(c, vars, env);
    let method = uppercase(c.method);
    let w = command_words(c, vars, env);
    let n = words_before_flags(method);
    let flags = flag_rows(listing(c.headers), c.body, vars, env);
    let rows = filled_rows(listing(c.headers), vars, env);
    let sorted = sort_rows(rows);
    crate::order::law_sort_rows_orders(rows);
    if flags.len() == 0 {
        assert(flat(flags) =~= Seq::<Seq<char>>::empty());
    } else {
        lemma_flag_words(c, vars, env, 0);
    }
    assert(w[0] == head_words(method)[0]);
    assert(w[n - 1] == built_url(c.url, listing(c.query), vars, env));
    if n == 4 {
        assert(w[1] == head_words(method)[1] && w[2] == head_words(method)[2]);
    }
    if c.headers.dom().contains(name) {
        crate::form_laws::lemma_rows_sent(c.headers, vars, env);
        let row = (filled(name, vars, env), filled(c.headers[name], vars, env));
        assert(rows.contains(row));
        assert(sorted.contains(row)) by {
            broadcast use vstd::seq_lib::group_to_multiset_ensures;
            assert(rows.to_multiset().count(row) > 0);
            assert(sorted.to_multiset().count(row) > 0);
        }
        let i = choose|i: int| 0 <= i < sorted.len() && sorted[i] == row;
        assert(flags[i] == ("-H"@, row.0 + ": "@ + row.1));
        lemma_flag_words(c, vars, env, i);
        let at = n + 2 * i;
        assert(w[at] == "-H"@ && w[at + 1] == row.0 + ": "@ + row.1);
        assert(has_flag(w, "-H"@, row.0 + ": "@ + row.1));
    }
    if c.body is Some {
        let k = flags.len() as int;
        lemma_flag_words(c, vars, env, k - 1);
        lemma_flag_words(c, vars, env, k - 2);
    }
}

/// Words that do not begin with curl are no command of its, and are refused by the first
/// of them; no words at all are refused as none.
pub proof fn law_only_curl_is_read(w: Seq<Seq<char>>)
    ensures
        w.len() == 0 ==> command_read(w) == Err::<RequestView, Fault>(Fault::NoCommand),
        w.len() > 0 && w[0] != "curl"@ ==> command_read(w) == Err::<RequestView, Fault>(
            Fault::NotCurl(w[0]),
        ),
        w.len() > 0 && command_read(w) is Ok ==> w[0] == "curl"@,
{
}

} // verus!
