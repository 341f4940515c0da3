//! What is asked of the registry, and what is made of its answers.

use vstd::prelude::*;
use vstd::string::*;
use vstd::utf8::encode_utf8;
use smallvec::SmallVec;
use crate::error::Error;
use crate::models::{opt_text, texts, ModEntry, ModFile};
use crate::objects::{fitting, fitting_files};
use crate::text::{decimal, integer_text, percent_encoded, same_text, url_encode};

verus! {

/// The parameters of a request, kept in a small vector of `smallvec` that
/// holds four of them without allocating. What it holds is named by
/// [`query_pairs`].
#[verifier::external_body]
pub struct Query {
    pairs: SmallVec<[(String, String); 4]>,
}

/// The parameters that a query holds, in their order, each a name and a
/// value.
pub uninterp spec fn query_pairs(q: Query) -> Seq<(Seq<char>, Seq<char>)>;

/// The texts of a list of pairs of strings.
pub open spec fn pair_texts(items: Seq<(String, String)>) -> Seq<(Seq<char>, Seq<char>)> {
    Seq::new(items.len(), |i: int| (items[i].0@, items[i].1@))
}

/// `SmallVec::new`: a vector that holds nothing.
#[verifier::external_body]
fn query_new() -> (q: Query)
    ensures
        query_pairs(q) == Seq::<(Seq<char>, Seq<char>)>::empty(),
{
    Query { pairs: SmallVec::new() }
}

/// `SmallVec::insert_many`: the items are put in at `index`, in their order,
/// before what stood there. An index beyond the length is left out, where
/// the call panics.
#[verifier::external_body]
fn query_insert_many(q: &mut Query, index: usize, items: Vec<(String, String)>)
    requires
        index <= query_pairs(*old(q)).len(),
    ensures
        query_pairs(*final(q)) == query_pairs(*old(q)).subrange(0, index as int) + pair_texts(
            items@,
        ) + query_pairs(*old(q)).subrange(index as int, query_pairs(*old(q)).len() as int),
{
    q.pairs.insert_many(index, items)
}

/// `SmallVec::push`: the item is appended.
#[verifier::external_body]
fn query_push(q: &mut Query, item: (String, String))
    ensures
        query_pairs(*final(q)) == query_pairs(*old(q)).push((item.0@, item.1@)),
{
    q.pairs.push(item)
}

/// `SmallVec::into_vec`: the items, in their order.
#[verifier::external_body]
fn query_into_vec(q: Query) -> (r: Vec<(String, String)>)
    ensures
        pair_texts(r@) == query_pairs(q),
{
    q.pairs.into_vec()
}

impl Query {
    /// Hands the parameters out, in their order.
    pub fn into_pairs(self) -> (r: Vec<(String, String)>)
        ensures
            pair_texts(r@) == query_pairs(self),
    {
        query_into_vec(self)
    }
}

/// Where the registry's package interface begins.
pub open spec fn api_base() -> Seq<char> {
    "https://addons-ecs.forgesvc.net/api/v2/addon/"@
}

/// The query part that selects the game and its mods section.
pub open spec fn game_query() -> Seq<char> {
    "?gameId=432&sectionId=6&"@
}

/// The address of `path` below the registry's package interface, with the
/// game's query part where `add_game` is set.
pub open spec fn url_of(path: Seq<char>, add_game: bool) -> Seq<char> {
    if add_game {
        api_base() + path + game_query()
    } else {
        api_base() + path
    }
}

/// The address of `path` below the registry's package interface, with the
/// game's query part where `add_game` is set.
pub fn get_url(path: &str, add_game: bool) -> (r: String)
    ensures
        r@ == url_of(path@, add_game),
{
    let mut s = "https://addons-ecs.forgesvc.net/api/v2/addon/".to_owned();
    s.append(path);
    if add_game {
        s.append("?gameId=432&sectionId=6&");
    }
    s
}

/// The address that lists the files of a package.
pub open spec fn files_url_of(id: int) -> Seq<char> {
    api_base() + decimal(id) + "/files"@
}

/// The address that lists the files of package `id`.
pub fn files_url(id: i64) -> (r: String)
    ensures
        r@ == files_url_of(id as int),
{
    let number = integer_text(id);
    let mut s = get_url(number.as_str(), false);
    s.append("/files");
    s
}

/// The address of a search for `query`, narrowed to a game version where
/// one is given. Both texts are percent-encoded.
pub open spec fn search_url_of(query: Seq<char>, version: Option<Seq<char>>) -> Seq<char> {
    let head = url_of("search"@, true) + "searchFilter="@ + percent_encoded(encode_utf8(query));
    match version {
        Some(v) => head + "&gameVersion="@ + percent_encoded(encode_utf8(v)),
        None => head,
    }
}

/// The address of a search for `query`, narrowed to `version` where one is
/// given.
pub fn search_url(query: &str, version: &Option<String>) -> (r: String)
    ensures
        r@ == search_url_of(query@, opt_text(*version)),
{
    let mut path = get_url("search", true);
    path.append("searchFilter=");
    let q = url_encode(query);
    path.append(q.as_str());
    match version {
        Some(v) => {
            path.append("&gameVersion=");
            let e = url_encode(v.as_str());
            path.append(e.as_str());
        },
        None => {},
    }
    path
}

/// The parameters of a search for `name`, narrowed to a game version where
/// one is given.
pub open spec fn search_query_of(name: Seq<char>, version: Option<Seq<char>>) -> Seq<
    (Seq<char>, Seq<char>),
> {
    let fixed = seq![("gameId"@, "432"@), ("sectionId"@, "6"@), ("searchFilter"@, name)];
    match version {
        Some(v) => fixed.push(("gameVersion"@, v)),
        None => fixed,
    }
}

/// The parameters of a search for `name`, narrowed to `version` where one
/// is given.
pub fn search_query(name: &str, version: &Option<String>) -> (r: Query)
    ensures
        query_pairs(r) == search_query_of(name@, opt_text(*version)),
{
    let mut fixed: Vec<(String, String)> = Vec::new();
    fixed.push(("gameId".to_owned(), "432".to_owned()));
    fixed.push(("sectionId".to_owned(), "6".to_owned()));
    fixed.push(("searchFilter".to_owned(), name.to_owned()));
    let mut query = query_new();
    proof {
        assert(pair_texts(fixed@) =~= seq![
            ("gameId"@, "432"@),
            ("sectionId"@, "6"@),
            ("searchFilter"@, name@),
        ]);
        assert(query_pairs(query).subrange(0, 0) + pair_texts(fixed@) + query_pairs(
            query,
        ).subrange(0, 0) =~= pair_texts(fixed@));
    }
    query_insert_many(&mut query, 0, fixed);
    match version {
        Some(v) => {
            query_push(&mut query, ("gameVersion".to_owned(), v.clone()));
        },
        None => {},
    }
    query
}

/// The entries that support a loader, as a test on one entry; without a
/// loader every entry passes. A loader is supported where the entry lists
/// it, letter for letter.
pub open spec fn supporting(loader: Option<Seq<char>>) -> spec_fn(ModEntry) -> bool {
    |e: ModEntry| loader matches Some(l) ==> texts(e.mod_loaders@).contains(l)
}

/// What a search shows: the entries that support the loader, last first
/// where `reverse` is set.
pub open spec fn shown(mods: Seq<ModEntry>, loader: Option<Seq<char>>, reverse: bool) -> Seq<
    ModEntry,
> {
    if reverse {
        mods.filter(supporting(loader)).reverse()
    } else {
        mods.filter(supporting(loader))
    }
}

/// Whether a list of strings holds `wanted`, letter for letter.
pub fn lists(all: &Vec<String>, wanted: &str) -> (r: bool)
    ensures
        r == texts(all@).contains(wanted@),
{
    let mut i: usize = 0;
    while i < all.len()
        invariant
            i <= all.len(),
            forall|j: int| 0 <= j < i ==> texts(all@)[j] != wanted@,
        decreases all.len() - i,
    {
        if same_text(all[i].as_str(), wanted) {
            assert(texts(all@)[i as int] == wanted@);
            return true;
        }
        i = i + 1;
    }
    false
}

/// Makes of the registry's answer to a search what is shown: the entries
/// that support `loader`, last first where `reverse` is set.
pub fn search_results(mods: Vec<ModEntry>, loader: &Option<String>, reverse: bool) -> (r: Vec<
    ModEntry,
>)
    ensures
        r@ == shown(mods@, opt_text(*loader), reverse),
{
    let ghost pred = supporting(opt_text(*loader));
    let ghost all = mods@;
    let mut kept: Vec<ModEntry> = Vec::new();
    proof {
        reveal(Seq::filter);
        assert(all.take(0).filter(pred) =~= kept@);
    }
    for e in it: mods
        invariant
            it.seq() == all,
            pred == supporting(opt_text(*loader)),
            kept@ == all.take(it.index() as int).filter(pred),
    {
        let ghost i = it.index() as int;
        proof {
            assert(all.take(i + 1) =~= all.take(i).push(all[i]));
            all.take(i).lemma_filter_push(all[i], pred);
        }
        let keep = match loader {
            Some(l) => lists(&e.mod_loaders, l.as_str()),
            None => true,
        };
        if keep {
            kept.push(e);
        }
    }
    assert(all.take(all.len() as int) =~= all);
    if !reverse {
        return kept;
    }
    let ghost forward = kept@;
    let mut out: Vec<ModEntry> = Vec::new();
    while kept.len() > 0
        invariant
            kept@ == forward.take(kept@.len() as int),
            out@.len() + kept@.len() == forward.len(),
            forall|j: int| 0 <= j < out@.len() ==> out@[j] == forward[forward.len() - 1 - j],
        decreases kept.len(),
    {
        let ghost n = kept@.len();
        let e = kept.pop().unwrap();
        assert(kept@ =~= forward.take(n - 1));
        out.push(e);
    }
    assert(out@ =~= forward.reverse());
    out
}

/// How often the files of a package are asked for before the registry is
/// given up.
pub const MAX_ATTEMPTS: u32 = 10;

/// What follows an attempt to fetch the files of a package.
#[derive(Debug)]
pub enum FetchStep {
    /// Ask again.
    Retry,
    /// The files that fit, in the registry's order.
    Files(Vec<ModFile>),
    /// Give up, for the reason given.
    GiveUp(Error),
}

/// What follows a failed attempt: a failure that may pass is tried again
/// until [`MAX_ATTEMPTS`] attempts were made, and then the registry counts
/// as unavailable; any other failure ends the attempts at once.
pub open spec fn after_failure(attempt: u32, e: Error) -> Result<(), Error> {
    if !e.retryable() {
        Err(e)
    } else if attempt < MAX_ATTEMPTS {
        Ok(())
    } else {
        Err(Error::RegistryUnavailable)
    }
}

/// Decides what follows the attempt number `attempt` (the first is 1) to
/// fetch the files of a package. An answer ends the attempts with the files
/// that fit the version and loader. A failure to send, to be answered or to
/// read the answer is tried again until [`MAX_ATTEMPTS`] attempts were made,
/// and then the registry counts as unavailable; any other failure ends the
/// attempts as it is.
pub fn get_files(
    attempt: u32,
    response: Result<Vec<ModFile>, Error>,
    version: &Option<String>,
    loader: &Option<String>,
) -> (r: FetchStep)
    ensures
        match response {
            Ok(files) => r matches FetchStep::Files(v) && v@ == files@.filter(
                fitting(opt_text(*version), opt_text(*loader)),
            ),
            Err(e) => match after_failure(attempt, e) {
                Ok(_) => r is Retry,
                Err(given) => r matches FetchStep::GiveUp(g) && g == given,
            },
        },
{
    match response {
        Ok(files) => FetchStep::Files(fitting_files(files, version, loader)),
        Err(e) => {
            if !e.is_retryable() {
                FetchStep::GiveUp(e)
            } else if attempt < MAX_ATTEMPTS {
                FetchStep::Retry
            } else {
                FetchStep::GiveUp(Error::RegistryUnavailable)
            }
        },
    }
}

/// No attempt from the last allowed one on is followed by another.
pub proof fn lemma_attempts_are_bounded(attempt: u32, e: Error)
    requires
        attempt >= MAX_ATTEMPTS,
    ensures
        after_failure(attempt, e) is Err,
{
}

} // verus!
