//! What a stored request is made of.
use vstd::prelude::*;
use vstd::string::*;

use crate::strmap::StrMap;

verus! {

/// A map from names to values, as text.
pub type TextMap = Map<Seq<char>, Seq<char>>;

/// What a request sends, and what it says it is.
#[derive(Debug, PartialEq, Eq)]
pub struct Body {
    pub content_type: String,
    pub data: String,
}

/// A set of variable values under a name.
#[derive(Debug, PartialEq, Eq)]
pub struct Profile {
    pub name: String,
    pub params: StrMap,
}

/// One stored request.
#[derive(Debug, PartialEq, Eq)]
pub struct RequestConfig {
    pub name: String,
    pub method: String,
    pub url: String,
    pub description: Option<String>,
    pub headers: StrMap,
    pub query: StrMap,
    pub body: Option<Body>,
    /// Variable names, and where in the response their values are found.
    pub extract: Option<StrMap>,
    pub profiles: Option<Vec<Profile>>,
}

/// Requests run one after another, each fed what the ones before it extracted.
#[derive(Debug, PartialEq, Eq)]
pub struct ChainConfig {
    pub name: String,
    pub steps: Vec<RequestConfig>,
    pub profiles: Option<Vec<Profile>>,
}

/// A body as text.
pub struct BodyView {
    pub content_type: Seq<char>,
    pub data: Seq<char>,
}

/// A profile as text.
pub struct ProfileView {
    pub name: Seq<char>,
    pub params: TextMap,
}

/// A request as text.
pub struct RequestView {
    pub name: Seq<char>,
    pub method: Seq<char>,
    pub url: Seq<char>,
    pub description: Option<Seq<char>>,
    pub headers: TextMap,
    pub query: TextMap,
    pub body: Option<BodyView>,
    pub extract: Option<TextMap>,
    pub profiles: Option<Seq<ProfileView>>,
}

impl View for Body {
    type V = BodyView;

    open spec fn view(&self) -> BodyView {
        BodyView { content_type: self.content_type@, data: self.data@ }
    }
}

impl View for Profile {
    type V = ProfileView;

    open spec fn view(&self) -> ProfileView {
        ProfileView { name: self.name@, params: self.params@ }
    }
}

/// An optional string as text.
pub open spec fn text_opt(o: Option<String>) -> Option<Seq<char>> {
    match o {
        Some(s) => Some(s@),
        None => None,
    }
}

/// An optional map as text.
pub open spec fn map_opt(o: Option<StrMap>) -> Option<TextMap> {
    match o {
        Some(m) => Some(m@),
        None => None,
    }
}

/// An optional body as text.
pub open spec fn body_opt(o: Option<Body>) -> Option<BodyView> {
    match o {
        Some(b) => Some(b@),
        None => None,
    }
}

/// A list of profiles as text.
pub open spec fn profile_views(v: Seq<Profile>) -> Seq<ProfileView> {
    v.map_values(|p: Profile| p@)
}

/// An optional list of profiles as text.
pub open spec fn profiles_opt(o: Option<Vec<Profile>>) -> Option<Seq<ProfileView>> {
    match o {
        Some(v) => Some(profile_views(v@)),
        None => None,
    }
}

impl View for RequestConfig {
    type V = RequestView;

    open spec fn view(&self) -> RequestView {
        RequestView {
            name: self.name@,
            method: self.method@,
            url: self.url@,
            description: text_opt(self.description),
            headers: self.headers@,
            query: self.query@,
            body: body_opt(self.body),
            extract: map_opt(self.extract),
            profiles: profiles_opt(self.profiles),
        }
    }
}

// ─── Copies ───────────────────────────────────────────────────────────────────

impl Clone for Body {
    fn clone(&self) -> (r: Body)
        ensures
            r@ == self@,
    {
        Body { content_type: self.content_type.clone(), data: self.data.clone() }
    }
}

impl Clone for Profile {
    fn clone(&self) -> (r: Profile)
        ensures
            r@ == self@,
    {
        Profile { name: self.name.clone(), params: self.params.clone() }
    }
}

/// The same profiles again.
pub fn copy_profiles(profiles: &Vec<Profile>) -> (r: Vec<Profile>)
    ensures
        profile_views(r@) == profile_views(profiles@),
{
    let mut r: Vec<Profile> = Vec::new();
    let mut i: usize = 0;
    while i < profiles.len()
        invariant
            i <= profiles.len(),
            profile_views(r@) == profile_views(profiles@).take(i as int),
        decreases profiles.len() - i,
    {
        let ghost before = profile_views(r@);
        r.push(profiles[i].clone());
        proof {
            assert(profile_views(r@) =~= before.push(profiles@[i as int]@));
            assert(profile_views(profiles@).take(i + 1) =~= before.push(profiles@[i as int]@));
        }
        i = i + 1;
    }
    proof {
        assert(profile_views(profiles@).take(profiles@.len() as int) =~= profile_views(profiles@));
    }
    r
}

/// The same optional text again.
pub fn copy_text(o: &Option<String>) -> (r: Option<String>)
    ensures
        text_opt(r) == text_opt(*o),
{
    match o {
        Some(s) => Some(s.clone()),
        None => None,
    }
}

/// The same optional body again.
pub fn copy_body(o: &Option<Body>) -> (r: Option<Body>)
    ensures
        body_opt(r) == body_opt(*o),
{
    match o {
        Some(b) => Some(b.clone()),
        None => None,
    }
}

/// The same optional map again.
pub fn copy_map(o: &Option<StrMap>) -> (r: Option<StrMap>)
    ensures
        map_opt(r) == map_opt(*o),
{
    match o {
        Some(m) => Some(m.clone()),
        None => None,
    }
}

impl Clone for RequestConfig {
    fn clone(&self) -> (r: RequestConfig)
        ensures
            r@ == self@,
    {
        RequestConfig {
            name: self.name.clone(),
            method: self.method.clone(),
            url: self.url.clone(),
            description: copy_text(&self.description),
            headers: self.headers.clone(),
            query: self.query.clone(),
            body: copy_body(&self.body),
            extract: copy_map(&self.extract),
            profiles: match &self.profiles {
                Some(v) => Some(copy_profiles(v)),
                None => None,
            },
        }
    }
}

} // verus!
