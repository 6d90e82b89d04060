//! The cells that a request keeps its derived state in.
use vstd::prelude::*;
use std::sync::Arc;
use crate::accept::{accept_of, parse_accept, Accept, QMediaTypeView};
use crate::header::{first_value, well_formed, EntryView, HeaderMap};
use crate::media_type::{media_type_of, parse_media_type, ContentType, MediaTypeView};
use crate::rocket::Route;

verus! {

/// A cell that is set once.
#[verifier::external_type_specification]
#[verifier::external_body]
#[verifier::reject_recursive_types(T)]
pub struct ExInitCell<T>(state::InitCell<T>);

/// A place for a reference that is there or not.
#[verifier::external_type_specification]
#[verifier::external_body]
#[verifier::reject_recursive_types(T)]
pub struct ExOptionRefSwap<'a, T>(ref_swap::OptionRefSwap<'a, T>);

/// What a cell for a content type holds: nothing until it is set.
pub uninterp spec fn content_type_held(
    cell: state::InitCell<Option<ContentType>>,
) -> Option<Option<ContentType>>;

/// What a cell for accepted media types holds: nothing until it is set.
pub uninterp spec fn accept_held(cell: state::InitCell<Option<Accept>>) -> Option<Option<Accept>>;

/// The route that a place for one refers to.
pub uninterp spec fn route_held(place: ref_swap::OptionRefSwap<'_, Route>) -> Option<Route>;

/// The route behind an optional reference.
pub open spec fn opt_route(route: Option<&Route>) -> Option<Route> {
    match route {
        Some(r) => Some(*r),
        None => None,
    }
}

/// The optional view of a content type.
pub open spec fn opt_content_type(c: Option<ContentType>) -> Option<MediaTypeView> {
    match c {
        Some(x) => Some(x@),
        None => None,
    }
}

/// The optional view of accepted media types.
pub open spec fn opt_accept(a: Option<Accept>) -> Option<Seq<QMediaTypeView>> {
    match a {
        Some(x) => Some(x@),
        None => None,
    }
}

/// The content type that headers give: that of the first `Content-Type` header, if it is one.
pub open spec fn content_type_in(headers: Seq<EntryView>) -> Option<MediaTypeView> {
    match first_value(headers, "Content-Type"@) {
        Some(v) => media_type_of(v),
        None => None,
    }
}

/// The accepted media types that headers give: those of the first `Accept` header, if it is a
/// list of them.
pub open spec fn accept_in(headers: Seq<EntryView>) -> Option<Seq<QMediaTypeView>> {
    match first_value(headers, "Accept"@) {
        Some(v) => accept_of(v),
        None => None,
    }
}

/// Reads the content type from headers.
pub fn read_content_type(headers: &HeaderMap) -> (r: Option<ContentType>)
    requires
        well_formed(headers@),
    ensures
        opt_content_type(r) == content_type_in(headers@),
{
    match headers.get_one("Content-Type") {
        Some(v) => match parse_media_type(v) {
            Some(media_type) => Some(ContentType { media_type }),
            None => None,
        },
        None => None,
    }
}

/// Reads the accepted media types from headers.
pub fn read_accept(headers: &HeaderMap) -> (r: Option<Accept>)
    requires
        well_formed(headers@),
    ensures
        opt_accept(r) == accept_in(headers@),
{
    match headers.get_one("Accept") {
        Some(v) => parse_accept(v),
        None => None,
    }
}

/// `state::InitCell::new`: a cell that holds nothing.
#[verifier::external_body]
pub(crate) fn new_content_type_cell() -> (r: state::InitCell<Option<ContentType>>)
    ensures
        content_type_held(r) is None,
{
    state::InitCell::new()
}

/// `state::InitCell::new`: a cell that holds nothing.
#[verifier::external_body]
pub(crate) fn new_accept_cell() -> (r: state::InitCell<Option<Accept>>)
    ensures
        accept_held(r) is None,
{
    state::InitCell::new()
}

/// `state::InitCell::get_or_init`: what the cell holds; if that is nothing, it is first set to
/// what the closure gives, which is what `read_content_type` gives for the headers.
#[verifier::external_body]
pub(crate) fn content_type_or_init<'a>(
    cell: &'a mut state::InitCell<Option<ContentType>>,
    headers: &HeaderMap,
) -> (r: &'a Option<ContentType>)
    requires
        well_formed(headers@),
    ensures
        content_type_held(*old(cell)) matches Some(held) ==> *r == held,
        content_type_held(*old(cell)) is None ==> opt_content_type(*r) == content_type_in(headers@),
        content_type_held(*final(cell)) == Some(*r),
{
    cell.get_or_init(|| read_content_type(headers))
}

/// `state::InitCell::get_or_init`: what the cell holds; if that is nothing, it is first set to
/// what the closure gives, which is what `read_accept` gives for the headers.
#[verifier::external_body]
pub(crate) fn accept_or_init<'a>(
    cell: &'a mut state::InitCell<Option<Accept>>,
    headers: &HeaderMap,
) -> (r: &'a Option<Accept>)
    requires
        well_formed(headers@),
    ensures
        accept_held(*old(cell)) matches Some(held) ==> *r == held,
        accept_held(*old(cell)) is None ==> opt_accept(*r) == accept_in(headers@),
        accept_held(*final(cell)) == Some(*r),
{
    cell.get_or_init(|| read_accept(headers))
}

/// `state::InitCell::try_get`: what the cell holds, if it is set.
#[verifier::external_body]
pub(crate) fn kept_content_type(cell: &state::InitCell<Option<ContentType>>) -> (r: Option<
    &Option<ContentType>,
>)
    ensures
        match r {
            Some(c) => content_type_held(*cell) == Some(*c),
            None => content_type_held(*cell) is None,
        },
{
    cell.try_get()
}

/// `state::InitCell::try_get`: what the cell holds, if it is set.
#[verifier::external_body]
pub(crate) fn kept_accept(cell: &state::InitCell<Option<Accept>>) -> (r: Option<&Option<Accept>>)
    ensures
        match r {
            Some(a) => accept_held(*cell) == Some(*a),
            None => accept_held(*cell) is None,
        },
{
    cell.try_get()
}

/// `state::InitCell::clone`: a cell that holds a clone of what the cell holds, or nothing as well.
#[verifier::external_body]
pub(crate) fn clone_content_type_cell(cell: &state::InitCell<Option<ContentType>>) -> (r:
    state::InitCell<Option<ContentType>>)
    ensures
        match content_type_held(*cell) {
            Some(c) => content_type_held(r) is Some && opt_content_type(content_type_held(r)->0)
                == opt_content_type(c),
            None => content_type_held(r) is None,
        },
{
    cell.clone()
}

/// `state::InitCell::clone`: a cell that holds a clone of what the cell holds, or nothing as well.
#[verifier::external_body]
pub(crate) fn clone_accept_cell(cell: &state::InitCell<Option<Accept>>) -> (r: state::InitCell<
    Option<Accept>,
>)
    ensures
        match accept_held(*cell) {
            Some(a) => accept_held(r) is Some && opt_accept(accept_held(r)->0) == opt_accept(a),
            None => accept_held(r) is None,
        },
{
    cell.clone()
}

/// `ref_swap::OptionRefSwap::new`: a place that refers to the route.
#[verifier::external_body]
pub(crate) fn new_route_place<'a>(route: Option<&'a Route>) -> (r: ref_swap::OptionRefSwap<
    'a,
    Route,
>)
    ensures
        route_held(r) == opt_route(route),
{
    ref_swap::OptionRefSwap::new(route)
}

/// `ref_swap::OptionRefSwap::load`: the route that the place refers to.
#[verifier::external_body]
pub(crate) fn load_route<'a>(place: &ref_swap::OptionRefSwap<'a, Route>) -> (r: Option<&'a Route>)
    ensures
        opt_route(r) == route_held(*place),
{
    place.load(core::sync::atomic::Ordering::Acquire)
}

/// `ref_swap::OptionRefSwap::store`: makes the place refer to the route.
#[verifier::external_body]
pub(crate) fn store_route<'a>(
    place: &mut ref_swap::OptionRefSwap<'a, Route>,
    route: Option<&'a Route>,
)
    ensures
        route_held(*final(place)) == opt_route(route),
{
    place.store(route, core::sync::atomic::Ordering::Release)
}

/// A cache that holds at most one value of each type, for good. Its handles share one cache.
#[verifier::external_body]
pub struct LocalCache {
    map: Arc<state::type_map::TypeMapSendSync>,
}

/// `state::TypeMap::new`: a cache without values.
#[verifier::external_body]
pub(crate) fn new_cache() -> LocalCache {
    LocalCache { map: Arc::new(state::type_map::TypeMapSendSync::new()) }
}

/// `Arc::clone`: another handle to the same cache.
#[verifier::external_body]
pub(crate) fn share_cache(cache: &LocalCache) -> (r: LocalCache)
    ensures
        r == *cache,
{
    LocalCache { map: Arc::clone(&cache.map) }
}

/// `state::TypeMap::try_get`: the value of the type, if there is one. Which one that is depends on
/// what was put in through any handle, and is left unsaid: a clause that ties lookups to each other
/// would speak of a value before it is there.
#[verifier::external_body]
fn cached_value<T: Send + Sync + 'static>(cache: &LocalCache) -> Option<&T> {
    cache.map.try_get()
}

/// `state::TypeMap::set`, which stores the value unless there is one of the type already, and says
/// whether it did; and `state::TypeMap::get`, which cannot fail after that. A value that was stored
/// is the one that comes back, since nothing ever takes its place. Whether it is stored depends on
/// what was put in through any handle, and is left unsaid.
#[verifier::external_body]
fn cache_value<T: Send + Sync + 'static>(cache: &LocalCache, value: T) -> (r: (bool, &T))
    ensures
        r.0 ==> *r.1 == value,
{
    let stored = cache.map.set(value);
    (stored, cache.map.get())
}

/// Whether `r` can come of looking up the type in the cache.
pub closed spec fn found_in<T: Send + Sync + 'static>(cache: LocalCache, r: Option<&T>) -> bool {
    call_ensures(cached_value::<T>, (&cache,), r)
}

/// Whether `r` can come of putting the value into the cache: whether it was stored, and the value of
/// the type that is there then.
pub closed spec fn put_into<T: Send + Sync + 'static>(
    cache: LocalCache,
    value: T,
    r: (bool, &T),
) -> bool {
    call_ensures(cache_value::<T>, (&cache, value), r)
}

impl LocalCache {
    /// Looks up the value of the type.
    pub(crate) fn find<T: Send + Sync + 'static>(&self) -> (r: Option<&T>)
        ensures
            found_in(*self, r),
    {
        cached_value(self)
    }

    /// Puts in a value, unless there is one of its type already. Gives back whether it was stored,
    /// and the value of the type that is there now.
    pub(crate) fn put<T: Send + Sync + 'static>(&self, value: T) -> (r: (bool, &T))
        ensures
            put_into(*self, value, r),
            r.0 ==> *r.1 == value,
    {
        cache_value(self, value)
    }
}

} // verus!
