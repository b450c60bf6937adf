//! The clipboard tools, in the order they are tried.
use vstd::prelude::*;
use vstd::string::*;

use crate::text::{concat3, join, joined, texts};

verus! {

/// A clipboard tool: a program that takes the text on its input, and its arguments.
#[derive(Debug, PartialEq, Eq)]
pub struct Backend {
    pub program: String,
    pub args: Vec<String>,
}

/// The tools: that of macOS, then that of Wayland, then those of X11.
pub open spec fn tools() -> Seq<(Seq<char>, Seq<Seq<char>>)> {
    seq![
        ("pbcopy"@, Seq::empty()),
        ("wl-copy"@, Seq::empty()),
        ("xclip"@, seq!["-selection"@, "clipboard"@]),
        ("xsel"@, seq!["--clipboard"@, "--input"@]),
    ]
}

/// The tools of a vector, as text.
pub open spec fn tools_of(v: Seq<Backend>) -> Seq<(Seq<char>, Seq<Seq<char>>)> {
    v.map_values(|b: Backend| (b.program@, texts(b.args@)))
}

fn no_args() -> (r: Vec<String>)
    ensures
        texts(r@) == Seq::<Seq<char>>::empty(),
{
    let r: Vec<String> = Vec::new();
    proof {
        assert(texts(r@) =~= Seq::<Seq<char>>::empty());
    }
    r
}

fn two_args(a: &str, b: &str) -> (r: Vec<String>)
    ensures
        texts(r@) == seq![a@, b@],
{
    let mut r: Vec<String> = Vec::new();
    r.push(a.to_owned());
    r.push(b.to_owned());
    proof {
        assert(texts(r@) =~= seq![a@, b@]);
    }
    r
}

/// The tools, in the order they are tried.
pub fn clipboard_backends() -> (r: Vec<Backend>)
    ensures
        tools_of(r@) == tools(),
{
    let mut r: Vec<Backend> = Vec::new();
    r.push(Backend { program: "pbcopy".to_owned(), args: no_args() });
    r.push(Backend { program: "wl-copy".to_owned(), args: no_args() });
    r.push(Backend { program: "xclip".to_owned(), args: two_args("-selection", "clipboard") });
    r.push(Backend { program: "xsel".to_owned(), args: two_args("--clipboard", "--input") });
    proof {
        assert(tools_of(r@) =~= tools());
    }
    r
}

/// The programs of tools.
pub open spec fn programs(tools: Seq<(Seq<char>, Seq<Seq<char>>)>) -> Seq<Seq<char>> {
    tools.map_values(|t: (Seq<char>, Seq<Seq<char>>)| t.0)
}

/// What is said when no tool could take the text.
pub fn no_clipboard_message(tried: &Vec<Backend>) -> (r: String)
    ensures
        r@ == "no clipboard tool found (tried "@ + joined(programs(tools_of(tried@)), ", "@)
            + ")"@,
{
    let ghost goal = programs(tools_of(tried@));
    let mut names: Vec<String> = Vec::new();
    let mut i: usize = 0;
    proof {
        assert(texts(names@) =~= goal.take(0));
    }
    while i < tried.len()
        invariant
            i <= tried.len(),
            goal == programs(tools_of(tried@)),
            texts(names@) == goal.take(i as int),
        decreases tried.len() - i,
    {
        let ghost before = names@;
        names.push(tried[i].program.clone());
        proof {
            assert(goal[i as int] == tried@[i as int].program@);
            assert(texts(names@) =~= texts(before).push(goal[i as int]));
            assert(goal.take(i + 1) =~= goal.take(i as int).push(goal[i as int]));
        }
        i = i + 1;
    }
    proof {
        assert(goal.take(goal.len() as int) =~= goal);
    }
    concat3("no clipboard tool found (tried ", join(&names, ", ").as_str(), ")")
}

} // verus!
