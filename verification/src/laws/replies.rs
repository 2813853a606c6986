//! Laws of [`replies`](crate::replies).

use vstd::prelude::*;
use vstd::utf8::encode_utf8;

use crate::headers::{lemma_group_index, lemma_group_index_is, valid_value, values_of};
use crate::replies::{
    is_moved, is_picker_page, is_reply, is_switch, lemma_reply_names, method_fields, moved_fields,
    pin_fields, plain_fields, uncached_fields, Response,
};
use crate::error::ProxyError;
use crate::unbound::set_cookie;

verus! {

/// A permanent redirect names its location, and says where it may not be kept.
pub proof fn law_moves_name_their_location(location: Seq<char>, no_store: bool)
    ensures
        values_of(moved_fields(location, no_store), "location"@) == seq![encode_utf8(location)],
        no_store ==> values_of(moved_fields(location, no_store), "cache-control"@) == seq![
            encode_utf8("no-store"@),
        ],
        !no_store ==> values_of(moved_fields(location, no_store), "cache-control"@).len() == 0,
{
    lemma_reply_names();
    let fields = moved_fields(location, no_store);
    lemma_group_index_is(fields, 0);
    if no_store {
        lemma_group_index_is(fields, 2);
    } else {
        lemma_group_index(fields, "cache-control"@);
    }
}

/// The redirect that pins a site leads to its location and sets exactly that cookie.
pub proof fn law_pins_are_set(location: Seq<char>, cookie: Seq<char>)
    ensures
        values_of(pin_fields(location, cookie), "location"@) == seq![encode_utf8(location)],
        values_of(pin_fields(location, cookie), "set-cookie"@) == seq![encode_utf8(cookie)],
{
    lemma_reply_names();
    lemma_group_index_is(pin_fields(location, cookie), 0);
    lemma_group_index_is(pin_fields(location, cookie), 1);
}

/// A page says what it is, and drops a stale pin only where it is told to.
pub proof fn law_pages(content_type: Seq<char>, clear: bool)
    ensures
        values_of(uncached_fields(content_type, clear), "content-type"@) == seq![
            encode_utf8(content_type),
        ],
        clear ==> values_of(uncached_fields(content_type, clear), "set-cookie"@) == seq![
            encode_utf8("yerd-site=; Path=/; Max-Age=0; SameSite=Lax"@),
        ],
        !clear ==> values_of(uncached_fields(content_type, clear), "set-cookie"@).len() == 0,
        values_of(plain_fields(), "content-type"@) == seq![
            encode_utf8("text/plain; charset=utf-8"@),
        ],
        values_of(method_fields(), "content-type"@) == seq![
            encode_utf8("text/plain; charset=utf-8"@),
        ],
        values_of(method_fields(), "allow"@) == seq![encode_utf8("GET, HEAD"@)],
{
    lemma_reply_names();
    let fields = uncached_fields(content_type, clear);
    lemma_group_index_is(fields, 2);
    if clear {
        lemma_group_index_is(fields, 3);
    } else {
        lemma_group_index(fields, "set-cookie"@);
    }
    lemma_group_index_is(plain_fields(), 1);
    lemma_group_index_is(method_fields(), 1);
    lemma_group_index_is(method_fields(), 3);
}

/// A redirect that a header can hold is made, with its status and without a body; any
/// other is an error.
pub proof fn law_redirects_are_made(
    r: Result<Response<Vec<u8>>, ProxyError>,
    location: Seq<char>,
    no_store: bool,
)
    requires
        is_moved(r, location, no_store),
    ensures
        valid_value(encode_utf8(location)) <==> r is Ok,
        r is Ok ==> r->Ok_0.status == 301 && r->Ok_0.body@.len() == 0,
{
    assert(encode_utf8(Seq::<char>::empty()) =~= Seq::empty());
}

/// A switch that headers can hold is made, with its status, its location and its cookie;
/// any other is an error.
pub proof fn law_switches_are_made(
    r: Result<Response<Vec<u8>>, ProxyError>,
    name: Seq<char>,
    location: Seq<char>,
)
    requires
        is_switch(r, name, location),
    ensures
        valid_value(encode_utf8(location)) && valid_value(encode_utf8(set_cookie(name))) <==> r is Ok,
        r is Ok ==> {
            let groups = crate::headers::header_groups(r->Ok_0.headers);
            &&& r->Ok_0.status == 303
            &&& r->Ok_0.body@.len() == 0
            &&& values_of(groups, "location"@) == seq![encode_utf8(location)]
            &&& values_of(groups, "set-cookie"@) == seq![encode_utf8(set_cookie(name))]
        },
{
    assert(encode_utf8(Seq::<char>::empty()) =~= Seq::empty());
    law_pins_are_set(location, set_cookie(name));
}

/// A reply has its status, its fields and its text.
pub proof fn law_replies_say_what_they_are_to_say(
    r: Response<Vec<u8>>,
    status: u16,
    fields: Seq<(Seq<char>, Seq<Seq<u8>>)>,
    body: Seq<char>,
)
    requires
        is_reply(r, status, fields, body),
    ensures
        r.status == status,
        crate::headers::header_groups(r.headers) == fields,
        r.body@ == encode_utf8(body),
{
}

/// The page to pick from goes out whole, as HTML, and drops a stale pin where it is told to.
pub proof fn law_picker_pages(
    r: Result<Response<Vec<u8>>, ProxyError>,
    html: Seq<char>,
    clear: bool,
)
    requires
        is_picker_page(r, html, clear),
    ensures
        r is Ok,
        r->Ok_0.status == 200,
        r->Ok_0.body@ == encode_utf8(html),
        ({
            let groups = crate::headers::header_groups(r->Ok_0.headers);
            &&& values_of(groups, "content-type"@) == seq![encode_utf8("text/html; charset=utf-8"@)]
            &&& clear <==> values_of(groups, "set-cookie"@) == seq![
                encode_utf8("yerd-site=; Path=/; Max-Age=0; SameSite=Lax"@),
            ]
            &&& !clear <==> values_of(groups, "set-cookie"@).len() == 0
        }),
{
    law_pages("text/html; charset=utf-8"@, clear);
}

} // verus!
