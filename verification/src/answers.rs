//! What is made of the responses to requests and chains.
use vstd::prelude::*;
use vstd::string::*;

use crate::media::{summarize, summary_text};
use crate::order::Row;
use crate::request::{Profile, ProfileView, RequestConfig, TextMap};
use crate::response::{message_view, KindView, ResponseKind, ResponsePane};
use crate::runner::{extract_values, extracted, json_pretty, readable_body, ExtractError, ExtractFault};
use crate::strmap::{listing, StrMap};
use crate::text::{
    concat2, concat3, contains, decimal, decimal_string, eq_ignoring_case, occurs, same_ignoring_case,
};

verus! {

// ─── One request ──────────────────────────────────────────────────────────────

/// The kind of pane for a status; no response has status 0.
pub open spec fn kind_of(status: u16) -> KindView {
    if status == 0 {
        KindView::Error
    } else {
        KindView::Http(status)
    }
}

/// Whether a content type claims JSON.
pub fn claims_json(content_type: &str) -> (r: bool)
    ensures
        r == occurs(content_type@, "application/json"@),
{
    contains(content_type, "application/json")
}

/// A body for reading: spread over lines where it is JSON.
pub open spec fn for_reading(text: Seq<char>) -> Seq<char> {
    match json_pretty(text) {
        Some(s) => s,
        None => text,
    }
}

fn response_kind(status: u16) -> (r: ResponseKind)
    ensures
        r@ == kind_of(status),
{
    if status == 0 {
        ResponseKind::Error
    } else {
        ResponseKind::Http(status)
    }
}

/// The pane on a text response.
pub fn text_pane(status: u16, text: String, headers: String) -> (r: ResponsePane)
    ensures
        r@ == message_view(kind_of(status), for_reading(text@), headers@, false),
{
    ResponsePane::message(response_kind(status), readable_body(text), headers, false)
}

/// The pane on a request that failed.
pub fn failure_pane(words: &str) -> (r: ResponsePane)
    ensures
        r@ == message_view(KindView::Error, "Error: "@ + words@, Seq::empty(), false),
{
    let pane = ResponsePane::message(
        ResponseKind::Error,
        concat2("Error: ", words),
        String::new(),
        false,
    );
    proof {
        assert(pane@.headers =~= Seq::empty());
    }
    pane
}

/// What became of an image: it could not be read, it could not be decoded, it was
/// decoded and can be drawn or cannot.
#[derive(Debug, PartialEq, Eq)]
pub enum Picture {
    Unread(String),
    Undecoded { bytes: usize, words: String },
    Decoded { bytes: usize, width: u32, height: u32, drawable: bool },
}

/// The text that stands for an image: its summary, and a note where it is not drawn.
pub open spec fn picture_words(content_type: Seq<char>, picture: Picture) -> Seq<char> {
    match picture {
        Picture::Unread(words) => content_type + "\n\nCould not read body: "@ + words@,
        Picture::Undecoded { bytes, words } => summary_text(content_type, bytes as nat, None)
            + "\n\nCould not decode: "@ + words@,
        Picture::Decoded { bytes, width, height, drawable } => {
            let summary = summary_text(content_type, bytes as nat, Some((width, height)));
            if drawable {
                summary
            } else {
                summary + "\n\nThis terminal has no image protocol ichigo can use."@
            }
        },
    }
}

/// An image that is drawn below its summary.
pub open spec fn is_drawn(picture: Picture) -> bool {
    picture matches Picture::Decoded { drawable: true, .. }
}

/// The pane on an image response. A failure to show it is no failure of the request:
/// the status stays.
pub fn picture_pane(status: u16, content_type: &str, headers: String, picture: &Picture) -> (r:
    ResponsePane)
    ensures
        r@ == message_view(
            kind_of(status),
            picture_words(content_type@, *picture),
            headers@,
            is_drawn(*picture),
        ),
{
    let (body, drawn) = match picture {
        Picture::Unread(words) => (
            concat3(content_type, "\n\nCould not read body: ", words.as_str()),
            false,
        ),
        Picture::Undecoded { bytes, words } => {
            let summary = summarize(content_type, *bytes, None);
            (concat3(summary.as_str(), "\n\nCould not decode: ", words.as_str()), false)
        },
        Picture::Decoded { bytes, width, height, drawable } => {
            let summary = summarize(content_type, *bytes, Some((*width, *height)));
            if *drawable {
                (summary, true)
            } else {
                (
                    concat2(
                        summary.as_str(),
                        "\n\nThis terminal has no image protocol ichigo can use.",
                    ),
                    false,
                )
            }
        },
    };
    ResponsePane::message(response_kind(status), body, headers, drawn)
}

// ─── Chains ───────────────────────────────────────────────────────────────────

/// The body of a step's response: its text, or the size of an image.
#[derive(Debug, PartialEq, Eq)]
pub enum StepBody {
    Text(String),
    Image(usize),
}

/// A chain on its way: the variables so far, the text so far, and the last status.
#[derive(Debug, PartialEq, Eq)]
pub struct ChainRun {
    pub vars: StrMap,
    pub out: String,
    pub status: u16,
}

/// The same, as text.
pub ghost struct ChainState {
    pub vars: TextMap,
    pub out: Seq<char>,
    pub status: u16,
}

impl View for ChainRun {
    type V = ChainState;

    open spec fn view(&self) -> ChainState {
        ChainState { vars: self.vars@, out: self.out@, status: self.status }
    }
}

/// The text that values are taken out of; an image has none.
pub open spec fn step_source(body: StepBody) -> Seq<char> {
    match body {
        StepBody::Text(text) => text@,
        StepBody::Image(_) => Seq::empty(),
    }
}

/// The text shown for a step's body.
pub open spec fn step_shown(content_type: Seq<char>, body: StepBody) -> Seq<char> {
    match body {
        StepBody::Text(text) => for_reading(text@),
        StepBody::Image(bytes) => summary_text(content_type, bytes as nat, None),
    }
}

/// One line for each of the first `n` values taken out.
pub open spec fn taken_lines(rows: Seq<Row>, n: int) -> Seq<char>
    decreases n,
{
    if n <= 0 {
        Seq::empty()
    } else {
        taken_lines(rows, n - 1) + "  ← "@ + rows[n - 1].0 + ": "@ + rows[n - 1].1 + "\n"@
    }
}

/// What a step adds to the text: its name and status, its body, and the values taken
/// out of it.
pub open spec fn step_text(name: Seq<char>, status: u16, shown: Seq<char>, taken: TextMap) -> Seq<
    char,
> {
    let rows = listing(taken);
    "▸ "@ + name + "  ["@ + decimal(status as nat) + "]\n"@ + (if shown.len() == 0 {
        "(empty body)\n"@
    } else {
        shown + "\n"@
    }) + taken_lines(rows, rows.len() as int)
}

/// What a step asks to be taken out of its response.
pub open spec fn asked_of(step: RequestConfig) -> Option<Seq<Row>> {
    match step.extract {
        Some(m) => Some(m.rows()),
        None => None,
    }
}

/// A chain after the response to one more step: the values taken out of it take the
/// place of variables of their names in the steps that follow.
pub open spec fn step_answered(
    chain: ChainState,
    step: RequestConfig,
    status: u16,
    content_type: Seq<char>,
    body: StepBody,
    last: bool,
) -> Result<ChainState, ExtractFault> {
    match extracted(
        asked_of(step),
        step_source(body),
        occurs(content_type, "application/json"@),
    ) {
        Err(fault) => Err(fault),
        Ok(taken) => Ok(
            ChainState {
                vars: chain.vars.union_prefer_right(taken),
                out: chain.out + step_text(
                    step.name@,
                    status,
                    step_shown(content_type, body),
                    taken,
                ) + (if last {
                    Seq::empty()
                } else {
                    "\n"@
                }),
                status,
            },
        ),
    }
}

fn write_taken(out: &mut String, taken: &StrMap)
    ensures
        final(out)@ == old(out)@ + taken_lines(listing(taken@), listing(taken@).len() as int),
{
    let n: usize = taken.len();
    let ghost rows = listing(taken@);
    let ghost before = out@;
    let mut i: usize = 0;
    proof {
        assert(out@ =~= before + taken_lines(rows, 0));
    }
    while i < n
        invariant
            i <= n,
            n == rows.len(),
            rows == taken.rows(),
            out@ == before + taken_lines(rows, i as int),
        decreases n - i,
    {
        let (name, value) = taken.row(i);
        out.append("  ← ");
        out.append(name);
        out.append(": ");
        out.append(value);
        out.append("\n");
        proof {
            assert(out@ =~= before + taken_lines(rows, i + 1));
        }
        i = i + 1;
    }
}

impl ChainRun {
    /// A chain before its first step.
    pub fn new(vars: StrMap) -> (r: ChainRun)
        ensures
            r@ == (ChainState { vars: vars@, out: Seq::empty(), status: 0 }),
    {
        let r = ChainRun { vars, out: String::new(), status: 0 };
        proof {
            assert(r@.out =~= Seq::empty());
        }
        r
    }

    /// Takes in the response to a step. On a failure to take the values out, the
    /// chain ends.
    pub fn answer(
        &mut self,
        step: &RequestConfig,
        status: u16,
        content_type: &str,
        body: StepBody,
        last: bool,
    ) -> (r: Result<(), ExtractError>)
        ensures
            match step_answered(old(self)@, *step, status, content_type@, body, last) {
                Ok(next) => r is Ok && final(self)@ == next,
                Err(fault) => (r matches Err(e) && e@ == fault) && final(self)@ == old(self)@,
            },
    {
        let ghost given = body;
        let json = claims_json(content_type);
        let source = match &body {
            StepBody::Text(text) => text.as_str(),
            StepBody::Image(_) => "",
        };
        proof {
            reveal_strlit("");
            assert(source@ =~= step_source(given));
        }
        let taken = match extract_values(&step.extract, source, json) {
            Ok(taken) => taken,
            Err(e) => {
                return Err(e);
            },
        };
        let shown = match body {
            StepBody::Text(text) => readable_body(text),
            StepBody::Image(bytes) => summarize(content_type, bytes, None),
        };
        let mut block = "▸ ".to_owned();
        block.append(step.name.as_str());
        block.append("  [");
        block.append(decimal_string(status as u128).as_str());
        block.append("]\n");
        if shown.as_str().is_empty() {
            block.append("(empty body)\n");
        } else {
            block.append(shown.as_str());
            block.append("\n");
        }
        write_taken(&mut block, &taken);
        proof {
            assert(block@ =~= step_text(
                step.name@,
                status,
                step_shown(content_type@, given),
                taken@,
            ));
        }
        let ghost text = self.out@;
        self.out.append(block.as_str());
        if !last {
            self.out.append("\n");
        } else {
            proof {
                assert(self.out@ =~= text + block@ + Seq::empty());
            }
        }
        self.status = status;
        self.vars.extend(&taken);
        Ok(())
    }

    /// The pane on a chain that went through.
    pub fn pane(&self) -> (r: ResponsePane)
        ensures
            r@ == message_view(kind_of(self@.status), self@.out, Seq::empty(), false),
    {
        let pane = ResponsePane::message(
            response_kind(self.status),
            self.out.clone(),
            String::new(),
            false,
        );
        proof {
            assert(pane@.headers =~= Seq::empty());
        }
        pane
    }
}

// ─── Profiles ─────────────────────────────────────────────────────────────────

/// The first profile at or after `i` of that name, whatever its case, or the number
/// of profiles.
pub open spec fn profile_from(profiles: Seq<ProfileView>, name: Seq<char>, i: int) -> int
    decreases profiles.len() - i,
{
    if i >= profiles.len() {
        profiles.len() as int
    } else if same_ignoring_case(profiles[i].name, name) {
        i
    } else {
        profile_from(profiles, name, i + 1)
    }
}

/// The variables with a request's profile over them. A profile that the request does
/// not have changes nothing.
pub open spec fn with_profile(
    vars: TextMap,
    profiles: Option<Seq<ProfileView>>,
    name: Option<Seq<char>>,
) -> TextMap {
    match (profiles, name) {
        (Some(list), Some(n)) => {
            let i = profile_from(list, n, 0);
            if i < list.len() {
                vars.union_prefer_right(list[i].params)
            } else {
                vars
            }
        },
        _ => vars,
    }
}

fn find_profile(profiles: &Vec<Profile>, name: &str) -> (r: usize)
    ensures
        r == profile_from(crate::request::profile_views(profiles@), name@, 0),
        r <= profiles.len(),
{
    let ghost all = crate::request::profile_views(profiles@);
    let mut i: usize = 0;
    while i < profiles.len()
        invariant
            i <= profiles.len(),
            all == crate::request::profile_views(profiles@),
            profile_from(all, name@, 0) == profile_from(all, name@, i as int),
        decreases profiles.len() - i,
    {
        proof {
            assert(all[i as int] == profiles@[i as int]@);
        }
        if eq_ignoring_case(profiles[i].name.as_str(), name) {
            return i;
        }
        i = i + 1;
    }
    i
}

/// Puts the values of a request's profile over the variables.
pub fn apply_profile(vars: &mut StrMap, config: &RequestConfig, profile: Option<&str>)
    ensures
        final(vars)@ == with_profile(
            old(vars)@,
            config@.profiles,
            match profile {
                Some(p) => Some(p@),
                None => None,
            },
        ),
{
    match (&config.profiles, profile) {
        (Some(profiles), Some(name)) => {
            let i: usize = find_profile(profiles, name);
            proof {
                let all = crate::request::profile_views(profiles@);
                assert(all.len() == profiles@.len());
                if i < all.len() {
                    assert(all[i as int] == profiles@[i as int]@);
                }
            }
            if i < profiles.len() {
                vars.extend(&profiles[i].params);
            }
        },
        _ => {},
    }
}

// ─── Laws ─────────────────────────────────────────────────────────────────────

/// What a step takes out of its response is what the steps after it see, and the
/// variables it does not name stay as they were.
pub proof fn law_taken_values_reach_the_next_step(
    chain: ChainState,
    step: RequestConfig,
    status: u16,
    content_type: Seq<char>,
    body: StepBody,
    last: bool,
    taken: TextMap,
    name: Seq<char>,
)
    requires
        extracted(
            asked_of(step),
            step_source(body),
            occurs(content_type, "application/json"@),
        ) == Ok::<TextMap, ExtractFault>(taken),
    ensures
        ({
            let next = step_answered(chain, step, status, content_type, body, last)->Ok_0.vars;
            if taken.dom().contains(name) {
                next.dom().contains(name) && next[name] == taken[name]
            } else {
                next.dom().contains(name) == chain.vars.dom().contains(name) && (
                chain.vars.dom().contains(name) ==> next[name] == chain.vars[name])
            }
        }),
{
}

/// An image that asks for values to be taken out ends the chain: there is no text to
/// take them from.
pub proof fn law_nothing_is_taken_from_an_image(
    chain: ChainState,
    step: RequestConfig,
    status: u16,
    content_type: Seq<char>,
    bytes: usize,
    last: bool,
)
    requires
        step.extract is Some,
        !occurs(content_type, "application/json"@),
    ensures
        step_answered(chain, step, status, content_type, StepBody::Image(bytes), last) == Err::<
            ChainState,
            ExtractFault,
        >(ExtractFault::NotJson),
{
}

proof fn lemma_profile_from(profiles: Seq<ProfileView>, name: Seq<char>, i: int)
    requires
        0 <= i <= profiles.len(),
    ensures
        i <= profile_from(profiles, name, i) <= profiles.len(),
        profile_from(profiles, name, i) < profiles.len() ==> same_ignoring_case(
            profiles[profile_from(profiles, name, i)].name,
            name,
        ),
        forall|j: int|
            i <= j < profile_from(profiles, name, i) ==> !same_ignoring_case(
                (#[trigger] profiles[j]).name,
                name,
            ),
    decreases profiles.len() - i,
{
    if i < profiles.len() && !same_ignoring_case(profiles[i].name, name) {
        lemma_profile_from(profiles, name, i + 1);
    }
}

/// The profile that is named gives its values: each variable it holds has its value
/// afterwards, and every other variable is as it was. The name's case does not matter,
/// and the first profile of the name is meant.
pub proof fn law_the_named_profile_gives_its_values(
    vars: TextMap,
    profiles: Seq<ProfileView>,
    name: Seq<char>,
    k: int,
    variable: Seq<char>,
)
    requires
        0 <= k < profiles.len(),
        same_ignoring_case(profiles[k].name, name),
        forall|i: int| 0 <= i < k ==> !same_ignoring_case((#[trigger] profiles[i]).name, name),
    ensures
        ({
            let after = with_profile(vars, Some(profiles), Some(name));
            let params = profiles[k].params;
            if params.dom().contains(variable) {
                after.dom().contains(variable) && after[variable] == params[variable]
            } else {
                after.dom().contains(variable) == vars.dom().contains(variable) && (
                vars.dom().contains(variable) ==> after[variable] == vars[variable])
            }
        }),
{
    lemma_profile_from(profiles, name, 0);
    let m = profile_from(profiles, name, 0);
    if m < k {
        assert(!same_ignoring_case(profiles[m].name, name));
    }
    if m > k {
        assert(!same_ignoring_case(profiles[k].name, name));
    }
}

/// Nothing changes where no profile is named, where the request has none, or where none
/// goes by the name.
pub proof fn law_no_such_profile_changes_nothing(
    vars: TextMap,
    profiles: Seq<ProfileView>,
    name: Seq<char>,
)
    ensures
        with_profile(vars, None, Some(name)) == vars,
        with_profile(vars, Some(profiles), None) == vars,
        with_profile(vars, None, None) == vars,
        (forall|i: int|
            0 <= i < profiles.len() ==> !same_ignoring_case((#[trigger] profiles[i]).name, name))
            ==> with_profile(vars, Some(profiles), Some(name)) == vars,
{
    lemma_profile_from(profiles, name, 0);
}

/// Every step of a chain leaves its mark in the text: what was there stays in front, and
/// the step's name, its status and its body follow, in that order.
pub proof fn law_a_step_adds_to_the_text(
    chain: ChainState,
    step: RequestConfig,
    status: u16,
    content_type: Seq<char>,
    body: StepBody,
    last: bool,
)
    requires
        step_answered(chain, step, status, content_type, body, last) is Ok,
    ensures
        ({
            let next = step_answered(chain, step, status, content_type, body, last)->Ok_0;
            let head = chain.out + "▸ "@ + step.name@ + "  ["@ + decimal(status as nat) + "]\n"@;
            &&& next.status == status
            &&& head.is_prefix_of(next.out)
            &&& body matches StepBody::Text(text) ==> json_pretty(text@) matches Some(shown)
                ==> shown.len() > 0 ==> (head + shown + "\n"@).is_prefix_of(next.out)
            &&& body matches StepBody::Text(text) ==> json_pretty(text@) is None && text@.len() > 0
                ==> (head + text@ + "\n"@).is_prefix_of(next.out)
            &&& body matches StepBody::Text(text) ==> json_pretty(text@) is None && text@.len()
                == 0 ==> (head + "(empty body)\n"@).is_prefix_of(next.out)
        }),
{
    let next = step_answered(chain, step, status, content_type, body, last)->Ok_0;
    let head = chain.out + "▸ "@ + step.name@ + "  ["@ + decimal(status as nat) + "]\n"@;
    let taken = extracted(
        asked_of(step),
        step_source(body),
        occurs(content_type, "application/json"@),
    )->Ok_0;
    let shown = step_shown(content_type, body);
    let rows = listing(taken);
    let middle = if shown.len() == 0 {
        "(empty body)\n"@
    } else {
        shown + "\n"@
    };
    let tail = taken_lines(rows, rows.len() as int) + (if last {
        Seq::empty()
    } else {
        "\n"@
    });
    assert(next.out =~= head + middle + tail);
    assert(head + shown + "\n"@ =~= head + (shown + "\n"@));
}

/// Each value that a step takes out of its response is shown on a line of its own.
pub proof fn law_taken_values_are_shown(rows: Seq<Row>, n: int, i: int)
    requires
        0 <= i < n <= rows.len(),
    ensures
        occurs(taken_lines(rows, n), "  ← "@ + rows[i].0 + ": "@ + rows[i].1 + "\n"@),
    decreases n,
{
    let line = "  ← "@ + rows[n - 1].0 + ": "@ + rows[n - 1].1 + "\n"@;
    let before = taken_lines(rows, n - 1);
    let all = taken_lines(rows, n);
    assert(all =~= before + line);
    if i == n - 1 {
        assert(all.subrange(before.len() as int, (before.len() + line.len()) as int) =~= line);
        assert(crate::text::occurs_at(all, line, before.len() as int));
    } else {
        law_taken_values_are_shown(rows, n - 1, i);
        let part = "  ← "@ + rows[i].0 + ": "@ + rows[i].1 + "\n"@;
        let k = choose|k: int| crate::text::occurs_at(before, part, k);
        assert(all.subrange(k, k + part.len()) =~= before.subrange(k, k + part.len()));
        assert(crate::text::occurs_at(all, part, k));
    }
}

} // verus!
