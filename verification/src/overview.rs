//! The data behind the list's overview page.
//!
//! Rendering itself is an external concern; this module holds the page's
//! plain data and the few computations the page makes: its title and
//! description, the scripts and stylesheets it loads, and the thumbnail
//! address derived from a demon's video link.

use vstd::prelude::*;
use vstd::string::StringExecFns;

verus! {

/// One demon as the overview page shows it.
pub struct OverviewDemon {
    pub id: i32,
    pub position: i32,
    pub name: String,
    pub publisher: String,
    pub video: Option<String>,
    pub current_position: Option<i32>,
}

/// The overview page: the ranked demons it lists.
pub struct OverviewPage {
    pub demon_overview: Vec<OverviewDemon>,
}

/// A script the page loads.
pub struct Script {
    pub src: String,
    pub module: bool,
}

impl Script {
    /// A module script at `src`.
    pub fn module(src: &str) -> (s: Script)
        ensures
            s.src@ == src@,
            s.module,
    {
        Script { src: String::from_str(src), module: true }
    }
}

impl OverviewPage {
    /// The page's title.
    pub fn title(&self) -> (r: String)
        ensures
            r@ == "Geometry Dash Demonlist"@,
    {
        String::from_str("Geometry Dash Demonlist")
    }

    /// The page's description.
    pub fn description(&self) -> (r: String)
        ensures
            r@ == "The official pointercrate Demonlist!"@,
    {
        String::from_str("The official pointercrate Demonlist!")
    }

    /// The scripts the page loads, in order.
    pub fn additional_scripts(&self) -> (r: Vec<Script>)
        ensures
            r@.len() == 3,
            r@[0].src@ == "/static/js/modules/formv2.js"@ && r@[0].module,
            r@[1].src@ == "/static/js/modules/demonlistv2.js"@ && r@[1].module,
            r@[2].src@ == "/static/js/demonlist.v2.2.js"@ && r@[2].module,
    {
        let mut scripts: Vec<Script> = Vec::new();
        scripts.push(Script::module("/static/js/modules/formv2.js"));
        scripts.push(Script::module("/static/js/modules/demonlistv2.js"));
        scripts.push(Script::module("/static/js/demonlist.v2.2.js"));
        scripts
    }

    /// The stylesheets the page loads, in order.
    pub fn additional_stylesheets(&self) -> (r: Vec<String>)
        ensures
            r@.len() == 2,
            r@[0]@ == "/static/css/demonlist.v2.1.css"@,
            r@[1]@ == "/static/css/sidebar.css"@,
    {
        let mut sheets: Vec<String> = Vec::new();
        sheets.push(String::from_str("/static/css/demonlist.v2.1.css"));
        sheets.push(String::from_str("/static/css/sidebar.css"));
        sheets
    }
}

/// Decoded query pairs, each as the sequences of characters of its key and
/// its value.
pub open spec fn pairs_view(pairs: Seq<(String, String)>) -> Seq<(Seq<char>, Seq<char>)> {
    pairs.map_values(|p: (String, String)| (p.0@, p.1@))
}

/// The decoded (key, value) query pairs of the absolute URL that `s` parses
/// to, in order: `None` when `s` does not parse as an absolute URL.
pub uninterp spec fn query_pairs_of(s: Seq<char>) -> Option<Seq<(Seq<char>, Seq<char>)>>;

/// Relies on url::Url::parse and url::Url::query_pairs: which absolute URL a
/// string parses to, and the decoded (key, value) pairs of its query string,
/// are functions of the string alone.
#[verifier::external_body]
fn lookup_query_pairs(video: &str) -> (r: Option<Vec<(String, String)>>)
    ensures
        match r {
            Some(pairs) => query_pairs_of(video@) == Some(pairs_view(pairs@)),
            None => query_pairs_of(video@) is None,
        },
{
    match url::Url::parse(video) {
        Ok(url) => Some(url.query_pairs().into_owned().collect()),
        Err(_) => None,
    }
}

/// The value of the first `v` key among decoded query pairs.
pub open spec fn first_v(pairs: Seq<(Seq<char>, Seq<char>)>) -> Option<Seq<char>>
    decreases pairs.len(),
{
    if pairs.len() == 0 {
        None
    } else if pairs.first().0 == "v"@ {
        Some(pairs.first().1)
    } else {
        first_v(pairs.drop_first())
    }
}

/// The video id a link names: the decoded value of the first `v` query
/// parameter of the absolute URL that `s` parses to.
pub open spec fn video_id_param(s: Seq<char>) -> Option<Seq<char>> {
    match query_pairs_of(s) {
        Some(pairs) => first_v(pairs),
        None => None,
    }
}

/// The decoded value of the first `v` key among `pairs`.
fn find_video_id(pairs: &Vec<(String, String)>) -> (r: Option<String>)
    ensures
        match r {
            Some(id) => first_v(pairs_view(pairs@)) == Some(id@),
            None => first_v(pairs_view(pairs@)) is None,
        },
{
    let key = String::from_str("v");
    let ghost pv = pairs_view(pairs@);
    proof {
        assert(pv.skip(0) =~= pv);
    }
    let mut i: usize = 0;
    while i < pairs.len()
        invariant
            i <= pairs.len(),
            key@ == "v"@,
            pv == pairs_view(pairs@),
            first_v(pv) == first_v(pv.skip(i as int)),
        decreases pairs.len() - i,
    {
        proof {
            assert(pv.skip(i as int).first() == pv[i as int]);
            assert(pv.skip(i as int).drop_first() =~= pv.skip(i as int + 1));
        }
        if pairs[i].0 == key {
            return Some(pairs[i].1.clone());
        }
        i += 1;
    }
    proof {
        assert(pv.skip(pairs.len() as int).len() == 0);
    }
    None
}

/// The video id shown when a video link names none.
pub open spec fn default_video_id() -> Seq<char> {
    "dQw4w9WgXcQ"@
}

/// The thumbnail address for a demon's video link: the preview image of the
/// link's `v` parameter, or of a fixed default when the link carries no such
/// parameter.
pub open spec fn thumbnail_url(s: Seq<char>) -> Seq<char> {
    let id = match video_id_param(s) {
        Some(id) => id,
        None => default_video_id(),
    };
    "https://i.ytimg.com/vi/"@ + id + "/mqdefault.jpg"@
}

/// The thumbnail address for a demon's video link, which must be a
/// well-formed absolute URL.
pub fn thumbnail(video: &str) -> (r: String)
    requires
        query_pairs_of(video@) is Some,
    ensures
        r@ == thumbnail_url(video@),
{
    let pairs = match lookup_query_pairs(video) {
        Some(pairs) => pairs,
        None => vstd::pervasive::unreached(),
    };
    let id: String = match find_video_id(&pairs) {
        Some(id) => id,
        None => String::from_str("dQw4w9WgXcQ"),
    };
    let mut out = String::from_str("https://i.ytimg.com/vi/");
    out.append(id.as_str());
    out.append("/mqdefault.jpg");
    out
}

/// The thumbnail address for a video link of unknown shape: `None` exactly
/// when the link does not parse as an absolute URL.
pub fn try_thumbnail(video: &str) -> (r: Option<String>)
    ensures
        match r {
            Some(t) => query_pairs_of(video@) is Some && t@ == thumbnail_url(video@),
            None => query_pairs_of(video@) is None,
        },
{
    match lookup_query_pairs(video) {
        Some(_) => Some(thumbnail(video)),
        None => None,
    }
}

} // verus!
