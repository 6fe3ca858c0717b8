//! Cross-origin resource sharing: what is added to responses for the browser.
use hyper::HeaderMap;
use vstd::prelude::*;
use vstd::string::*;
use vstd::utf8::*;

use crate::http::headers;
use crate::http::headers::{
    appended, bytes_list, has_room, header_entries, name_char, no_headers, replaced, valid_name,
    valid_value, value_byte, values_of,
};
use crate::text;
use crate::text::ascii_lowered;

verus! {

/// A header name with a value.
#[derive(Debug, PartialEq, Eq)]
pub struct HeaderPair {
    name: String,
    value: Vec<u8>,
}

/// Whether a character may stand in a header name.
fn is_name_char(c: char) -> (res: bool)
    ensures
        res == name_char(c),
{
    ('0' <= c && c <= '9') || ('A' <= c && c <= 'Z') || ('^' <= c && c <= 'z') || ('!' <= c && c
        <= '\'') || c == '*' || c == '+' || c == '-' || c == '.' || c == '|' || c == '~'
}

/// Whether a string is a header name.
fn is_valid_name(name: &str) -> (res: bool)
    ensures
        res == valid_name(name@),
{
    let chars = text::chars_of(name);
    if chars.len() == 0 || chars.len() > 0xFFFF {
        return false;
    }
    for i in 0..chars.len()
        invariant
            chars@ == name@,
            forall|k: int| 0 <= k < i ==> name_char(#[trigger] name@[k]),
    {
        if !is_name_char(chars[i]) {
            proof {
                assert(!name_char(name@[i as int]));
            }
            return false;
        }
    }
    true
}

/// Whether bytes are a header value.
fn is_valid_value(value: &Vec<u8>) -> (res: bool)
    ensures
        res == valid_value(value@),
{
    for i in 0..value.len()
        invariant
            forall|k: int| 0 <= k < i ==> value_byte(#[trigger] value@[k]),
    {
        if !(value[i] >= 32 && value[i] != 127 || value[i] == 9) {
            proof {
                assert(!value_byte(value@[i as int]));
            }
            return false;
        }
    }
    true
}

impl HeaderPair {
    #[verifier::type_invariant]
    spec fn valid(self) -> bool {
        valid_name(self.name@) && valid_value(self.value@)
    }

    /// The name, in the case that it was given in.
    pub closed spec fn name(self) -> Seq<char> {
        self.name@
    }

    /// The value.
    pub closed spec fn value(self) -> Seq<u8> {
        self.value@
    }

    /// The pair of a name and a value: `None` where the one is no header name or the other is no
    /// header value.
    pub fn new(name: String, value: Vec<u8>) -> (res: Option<HeaderPair>)
        ensures
            match res {
                Some(pair) => valid_name(name@) && valid_value(value@) && pair.name() == name@
                    && pair.value() == value@,
                None => !valid_name(name@) || !valid_value(value@),
            },
    {
        if is_valid_name(name.as_str()) && is_valid_value(&value) {
            Some(HeaderPair { name, value })
        } else {
            None
        }
    }
}

/// The headers that a request calls for, where the settings give one.
pub struct CorsHeaders {
    pub allow_origin: Option<HeaderPair>,
    pub allow_credentials: Option<HeaderPair>,
    pub allow_private_network: Option<HeaderPair>,
    pub vary: Option<HeaderPair>,
    pub allow_methods: Option<HeaderPair>,
    pub allow_headers: Option<HeaderPair>,
    pub max_age: Option<HeaderPair>,
    pub expose_headers: Option<HeaderPair>,
}

/// The contents of a header map.
pub type Entries = Map<Seq<char>, Seq<Seq<u8>>>;

/// The headers with one more, where there is one.
pub open spec fn with_pair(entries: Entries, pair: Option<HeaderPair>) -> Entries {
    match pair {
        Some(p) => appended(entries, ascii_lowered(p.name()), p.value()),
        None => entries,
    }
}

/// The headers that go with every response.
pub open spec fn common_headers(cors: CorsHeaders) -> Entries {
    with_pair(
        with_pair(
            with_pair(with_pair(no_headers(), cors.allow_origin), cors.allow_credentials),
            cors.allow_private_network,
        ),
        cors.vary,
    )
}

/// The headers with the three that stand in every response, whatever the settings say.
pub open spec fn with_fixed(entries: Entries) -> Entries {
    replaced(
        replaced(
            replaced(
                entries,
                ascii_lowered("access-control-allow-headers"@),
                encode_utf8("*"@),
            ),
            ascii_lowered("access-control-allow-origin"@),
            encode_utf8("https://tailcall.run"@),
        ),
        ascii_lowered("access-control-allow-methods"@),
        encode_utf8("GET, POST, OPTIONS"@),
    )
}

/// The headers of the response to a request that asks what is allowed.
pub open spec fn preflight_headers(cors: CorsHeaders) -> Entries {
    with_fixed(
        with_pair(
            with_pair(with_pair(common_headers(cors), cors.allow_methods), cors.allow_headers),
            cors.max_age,
        ),
    )
}

/// The headers that are added to the response to any other request.
pub open spec fn exposed_headers(cors: CorsHeaders) -> Entries {
    with_pair(common_headers(cors), cors.expose_headers)
}

/// The headers of a response with those for the browser: what the response varies by is added to,
/// and any other header of that name is replaced.
pub open spec fn shared_headers(entries: Entries, cors: CorsHeaders) -> Entries {
    let added = exposed_headers(cors);
    let vary = ascii_lowered("vary"@);
    let varied = if values_of(added, vary).len() > 0 {
        appended(entries, vary, values_of(added, vary)[0])
    } else {
        entries
    };
    with_fixed(varied.union_prefer_right(added.remove(vary)))
}

/// Whether there are no more than `n` names.
pub open spec fn at_most(entries: Entries, n: nat) -> bool {
    entries.dom().finite() && entries.dom().len() <= n
}

proof fn lemma_appended_size(entries: Entries, name: Seq<char>, value: Seq<u8>, n: nat)
    requires
        at_most(entries, n),
    ensures
        at_most(appended(entries, name, value), n + 1),
        at_most(replaced(entries, name, value), n + 1),
{
    assert(appended(entries, name, value).dom() =~= entries.dom().insert(name));
    assert(replaced(entries, name, value).dom() =~= entries.dom().insert(name));
}

/// Adds a header, where there is one.
fn extend_with(map: &mut HeaderMap, pair: &Option<HeaderPair>)
    requires
        has_room(header_entries(*old(map)), 1),
    ensures
        header_entries(*final(map)) == with_pair(header_entries(*old(map)), *pair),
{
    if let Some(pair) = pair {
        proof {
            use_type_invariant(pair);
        }
        let _ = headers::try_append(map, pair.name.as_str(), pair.value.as_slice());
    }
}

proof fn lemma_with_pair_size(entries: Entries, pair: Option<HeaderPair>, n: nat)
    requires
        at_most(entries, n),
    ensures
        at_most(with_pair(entries, pair), n + 1),
{
    if let Some(p) = pair {
        lemma_appended_size(entries, ascii_lowered(p.name()), p.value(), n);
    }
}

proof fn lemma_visible_value(s: Seq<char>)
    requires
        forall|i: int| 0 <= i < s.len() ==> ' ' <= #[trigger] s[i] <= '~',
    ensures
        valid_value(encode_utf8(s)),
{
    is_ascii_chars_encode_utf8(s);
    assert forall|i: int| 0 <= i < encode_utf8(s).len() implies value_byte(
        #[trigger] encode_utf8(s)[i],
    ) by {
        assert(encode_utf8(s)[i] == s[i] as u8);
    }
}

proof fn lemma_fixed_text()
    ensures
        valid_name("access-control-allow-headers"@),
        valid_name("access-control-allow-origin"@),
        valid_name("access-control-allow-methods"@),
        valid_name("vary"@),
        valid_value(encode_utf8("*"@)),
        valid_value(encode_utf8("https://tailcall.run"@)),
        valid_value(encode_utf8("GET, POST, OPTIONS"@)),
{
    reveal_strlit("access-control-allow-headers");
    reveal_strlit("access-control-allow-origin");
    reveal_strlit("access-control-allow-methods");
    reveal_strlit("vary");
    reveal_strlit("*");
    reveal_strlit("https://tailcall.run");
    reveal_strlit("GET, POST, OPTIONS");
    lemma_visible_value("*"@);
    lemma_visible_value("https://tailcall.run"@);
    lemma_visible_value("GET, POST, OPTIONS"@);
}

/// Sets the three headers that stand in every response. Returns whether the map took them.
fn set_fixed(map: &mut HeaderMap) -> (res: bool)
    ensures
        has_room(header_entries(*old(map)), 3) ==> res,
        res ==> header_entries(*final(map)) == with_fixed(header_entries(*old(map))),
{
    let ghost n = header_entries(*map).dom().len();
    let ghost roomy = has_room(header_entries(*map), 3);
    proof {
        lemma_fixed_text();
        if roomy {
            lemma_appended_size(
                header_entries(*map),
                ascii_lowered("access-control-allow-headers"@),
                encode_utf8("*"@),
                n,
            );
        }
    }
    if !headers::try_insert(map, "access-control-allow-headers", "*".as_bytes()) {
        return false;
    }
    proof {
        if roomy {
            lemma_appended_size(
                header_entries(*map),
                ascii_lowered("access-control-allow-origin"@),
                encode_utf8("https://tailcall.run"@),
                n + 1,
            );
        }
    }
    headers::try_insert(map, "access-control-allow-origin", "https://tailcall.run".as_bytes())
        && headers::try_insert(map, "access-control-allow-methods", "GET, POST, OPTIONS".as_bytes())
}

/// Makes the headers that go with every response.
fn common(cors: &CorsHeaders) -> (res: HeaderMap)
    ensures
        header_entries(res) == common_headers(*cors),
        at_most(header_entries(res), 4),
{
    let mut map = headers::empty();
    proof {
        lemma_with_pair_size(header_entries(map), cors.allow_origin, 0);
    }
    extend_with(&mut map, &cors.allow_origin);
    proof {
        lemma_with_pair_size(header_entries(map), cors.allow_credentials, 1);
    }
    extend_with(&mut map, &cors.allow_credentials);
    proof {
        lemma_with_pair_size(header_entries(map), cors.allow_private_network, 2);
    }
    extend_with(&mut map, &cors.allow_private_network);
    proof {
        lemma_with_pair_size(header_entries(map), cors.vary, 3);
    }
    extend_with(&mut map, &cors.vary);
    map
}

/// Whether a request, by its method, asks what is allowed.
pub fn is_preflight(method: &str) -> (res: bool)
    ensures
        res == (method@ == "OPTIONS"@),
{
    text::same(method, "OPTIONS")
}

/// Makes the headers of the response to a request that asks what is allowed.
pub fn preflight(cors: &CorsHeaders) -> (res: HeaderMap)
    ensures
        header_entries(res) == preflight_headers(*cors),
{
    let mut map = common(cors);
    proof {
        lemma_with_pair_size(header_entries(map), cors.allow_methods, 4);
    }
    extend_with(&mut map, &cors.allow_methods);
    proof {
        lemma_with_pair_size(header_entries(map), cors.allow_headers, 5);
    }
    extend_with(&mut map, &cors.allow_headers);
    proof {
        lemma_with_pair_size(header_entries(map), cors.max_age, 6);
    }
    extend_with(&mut map, &cors.max_age);
    let _ = set_fixed(&mut map);
    map
}

/// The number of names that a response may gain.
pub const GAINED_NAMES: usize = 9;

/// Moves the values of a name to another map, in place of those that the name may have had there.
/// Returns whether that map took them.
fn move_over(target: &mut HeaderMap, from: &mut HeaderMap, pair: &Option<HeaderPair>) -> (res: bool)
    ensures
        has_room(header_entries(*old(target)), 2) ==> res,
        res ==> {
            &&& header_entries(*final(from)) == match pair {
                Some(p) => header_entries(*old(from)).remove(ascii_lowered(p.name())),
                None => header_entries(*old(from)),
            }
            &&& header_entries(*final(target)).union_prefer_right(header_entries(*final(from)))
                == header_entries(*old(target)).union_prefer_right(header_entries(*old(from)))
            &&& forall|n: nat|
                at_most(header_entries(*old(target)), n) ==> #[trigger] at_most(
                    header_entries(*final(target)),
                    n + 1,
                )
        },
{
    let ghost before = header_entries(*target);
    let ghost source = header_entries(*from);
    if let Some(pair) = pair {
        proof {
            use_type_invariant(pair);
        }
        let name = pair.name.as_str();
        let ghost key = ascii_lowered(name@);
        let values = headers::get_all(from, name);
        let ghost list = bytes_list(values@);
        proof {
            assert(list.len() == values@.len());
        }
        if values.len() == 0 {
            proof {
                assert(source.remove(key) =~= source);
            }
            return true;
        }
        proof {
            assert(before.insert(key, list.take(1)).dom() =~= before.dom().insert(key));
        }
        if !headers::try_insert(target, name, values[0].as_slice()) {
            return false;
        }
        proof {
            assert(seq![values@[0]@] =~= list.take(1));
        }
        for i in 1..values.len()
            invariant
                valid_name(name@),
                key == ascii_lowered(name@),
                list == bytes_list(values@),
                list.len() == values@.len(),
                forall|k: int| 0 <= k < values@.len() ==> valid_value((#[trigger] values@[k])@),
                header_entries(*target) == before.insert(key, list.take(i as int)),
                before == header_entries(*old(target)),
        {
            proof {
                assert(before.insert(key, list.take(i as int)).dom() =~= before.dom().insert(key));
            }
            if !headers::try_append(target, name, values[i].as_slice()) {
                return false;
            }
            proof {
                assert(list.take(i as int).push(values@[i as int]@) =~= list.take(i + 1));
                assert(header_entries(*target) =~= before.insert(key, list.take(i + 1)));
            }
        }
        let _ = headers::remove(from, name);
        proof {
            assert(list.take(list.len() as int) =~= list);
            assert(before.insert(key, list).dom() =~= before.dom().insert(key));
            assert(header_entries(*target).union_prefer_right(header_entries(*from))
                =~= before.union_prefer_right(source));
        }
    }
    true
}

/// The headers of a response with those for the browser: `None` where the map of the response
/// reaches its limit.
///
/// Where that limit lies depends on how the map has placed its names, which its contents do not
/// show. It is not reached where the response has [`GAINED_NAMES`] names less than a map always has
/// room for.
pub fn share(response_headers: HeaderMap, cors: &CorsHeaders) -> (res: Option<HeaderMap>)
    ensures
        match res {
            Some(map) => header_entries(map) == shared_headers(header_entries(response_headers), *cors),
            None => !has_room(header_entries(response_headers), GAINED_NAMES as nat),
        },
{
    let ghost n = header_entries(response_headers).dom().len();
    let ghost roomy = has_room(header_entries(response_headers), GAINED_NAMES as nat);
    let mut target = response_headers;
    let mut map = common(cors);
    proof {
        lemma_fixed_text();
        lemma_with_pair_size(header_entries(map), cors.expose_headers, 4);
    }
    extend_with(&mut map, &cors.expose_headers);
    let ghost vary_name = ascii_lowered("vary"@);
    if let Some(vary) = headers::remove(&mut map, "vary") {
        proof {
            if roomy {
                lemma_appended_size(header_entries(target), vary_name, vary@, n);
            }
        }
        if !headers::try_append(&mut target, "vary", vary.as_slice()) {
            return None;
        }
    }
    let ghost varied = header_entries(target);
    let ghost added = header_entries(map);
    proof {
        assert(roomy ==> at_most(varied, n + 1));
    }
    let done = move_over(&mut target, &mut map, &cors.allow_origin);
    if !done {
        return None;
    }
    proof {
        assert(roomy ==> at_most(header_entries(target), n + 1 + 1));
    }
    let done = move_over(&mut target, &mut map, &cors.allow_credentials);
    if !done {
        return None;
    }
    proof {
        assert(roomy ==> at_most(header_entries(target), n + 2 + 1));
    }
    let done = move_over(&mut target, &mut map, &cors.allow_private_network);
    if !done {
        return None;
    }
    proof {
        assert(roomy ==> at_most(header_entries(target), n + 3 + 1));
    }
    let done = move_over(&mut target, &mut map, &cors.vary);
    if !done {
        return None;
    }
    proof {
        assert(roomy ==> at_most(header_entries(target), n + 4 + 1));
    }
    let done = move_over(&mut target, &mut map, &cors.expose_headers);
    if !done {
        return None;
    }
    proof {
        assert(roomy ==> at_most(header_entries(target), n + 5 + 1));
        assert(header_entries(map) =~= no_headers());
        assert(header_entries(target).union_prefer_right(no_headers()) =~= header_entries(target));
    }
    if set_fixed(&mut target) {
        Some(target)
    } else {
        None
    }
}

/// Whatever the settings and the response say, the browser is told the one origin, the methods and
/// that all headers are allowed.
pub proof fn law_fixed_headers_win(entries: Entries, cors: CorsHeaders)
    ensures
        values_of(preflight_headers(cors), "access-control-allow-origin"@) == seq![
            encode_utf8("https://tailcall.run"@),
        ],
        values_of(preflight_headers(cors), "access-control-allow-headers"@) == seq![encode_utf8("*"@)],
        values_of(preflight_headers(cors), "access-control-allow-methods"@) == seq![
            encode_utf8("GET, POST, OPTIONS"@),
        ],
        values_of(shared_headers(entries, cors), "access-control-allow-origin"@) == seq![
            encode_utf8("https://tailcall.run"@),
        ],
        values_of(shared_headers(entries, cors), "access-control-allow-headers"@) == seq![
            encode_utf8("*"@),
        ],
        values_of(shared_headers(entries, cors), "access-control-allow-methods"@) == seq![
            encode_utf8("GET, POST, OPTIONS"@),
        ],
{
    lemma_fixed_names();
}

proof fn lemma_fixed_names()
    ensures
        ascii_lowered("access-control-allow-headers"@) == "access-control-allow-headers"@,
        ascii_lowered("access-control-allow-origin"@) == "access-control-allow-origin"@,
        ascii_lowered("access-control-allow-methods"@) == "access-control-allow-methods"@,
        "access-control-allow-headers"@ != "access-control-allow-origin"@,
        "access-control-allow-headers"@ != "access-control-allow-methods"@,
        "access-control-allow-origin"@ != "access-control-allow-methods"@,
{
    reveal_strlit("access-control-allow-headers");
    reveal_strlit("access-control-allow-origin");
    reveal_strlit("access-control-allow-methods");
    assert(ascii_lowered("access-control-allow-headers"@) =~= "access-control-allow-headers"@);
    assert(ascii_lowered("access-control-allow-origin"@) =~= "access-control-allow-origin"@);
    assert(ascii_lowered("access-control-allow-methods"@) =~= "access-control-allow-methods"@);
    assert("access-control-allow-headers"@[21] != "access-control-allow-origin"@[21]);
    assert("access-control-allow-headers"@[21] != "access-control-allow-methods"@[21]);
    assert("access-control-allow-origin"@[21] != "access-control-allow-methods"@[21]);
}

/// The values that settings give for a header, in the order of the settings.
pub open spec fn given(pairs: Seq<Option<HeaderPair>>, name: Seq<char>) -> Seq<Seq<u8>>
    decreases pairs.len(),
{
    if pairs.len() == 0 {
        Seq::empty()
    } else {
        match pairs.last() {
            Some(pair) => if ascii_lowered(pair.name()) == name {
                given(pairs.drop_last(), name).push(pair.value())
            } else {
                given(pairs.drop_last(), name)
            },
            None => given(pairs.drop_last(), name),
        }
    }
}

/// Whether a name is one of the three whose value is fixed.
pub open spec fn is_fixed(name: Seq<char>) -> bool {
    name == "access-control-allow-origin"@ || name == "access-control-allow-headers"@ || name
        == "access-control-allow-methods"@
}

/// Whether a map holds exactly these values of a header.
pub open spec fn holds(entries: Entries, name: Seq<char>, values: Seq<Seq<u8>>) -> bool {
    &&& entries.contains_key(name) <==> values.len() > 0
    &&& values.len() > 0 ==> entries[name] == values
}

proof fn lemma_with_pair_given(
    entries: Entries,
    pairs: Seq<Option<HeaderPair>>,
    pair: Option<HeaderPair>,
)
    requires
        forall|name: Seq<char>| #[trigger] holds(entries, name, given(pairs, name)),
    ensures
        forall|name: Seq<char>| #[trigger]
            holds(with_pair(entries, pair), name, given(pairs.push(pair), name)),
{
    assert(pairs.push(pair).drop_last() =~= pairs);
    assert forall|name: Seq<char>| #[trigger]
        holds(with_pair(entries, pair), name, given(pairs.push(pair), name)) by {
        assert(holds(entries, name, given(pairs, name)));
        if let Some(p) = pair {
            let key = ascii_lowered(p.name());
            assert(holds(entries, key, given(pairs, key)));
            if !entries.contains_key(key) {
                assert(given(pairs, key) =~= Seq::empty());
            }
        }
    }
}

proof fn lemma_common_given(cors: CorsHeaders, pairs: Seq<Option<HeaderPair>>)
    requires
        pairs == seq![
            cors.allow_origin,
            cors.allow_credentials,
            cors.allow_private_network,
            cors.vary,
        ],
    ensures
        forall|name: Seq<char>| #[trigger] holds(common_headers(cors), name, given(pairs, name)),
{
    let none = Seq::<Option<HeaderPair>>::empty();
    let m0 = no_headers();
    assert forall|name: Seq<char>| #[trigger] holds(m0, name, given(none, name)) by {}
    lemma_with_pair_given(m0, none, cors.allow_origin);
    let p1 = none.push(cors.allow_origin);
    let m1 = with_pair(m0, cors.allow_origin);
    lemma_with_pair_given(m1, p1, cors.allow_credentials);
    let p2 = p1.push(cors.allow_credentials);
    let m2 = with_pair(m1, cors.allow_credentials);
    lemma_with_pair_given(m2, p2, cors.allow_private_network);
    let p3 = p2.push(cors.allow_private_network);
    let m3 = with_pair(m2, cors.allow_private_network);
    lemma_with_pair_given(m3, p3, cors.vary);
    assert(p3.push(cors.vary) =~= pairs);
}

/// The response to a request that asks what is allowed has, besides the fixed headers, those that the
/// settings give, with the values that they give for them, in the order of the settings.
pub proof fn law_preflight_has_what_is_given(cors: CorsHeaders, name: Seq<char>)
    requires
        !is_fixed(name),
    ensures
        holds(
            preflight_headers(cors),
            name,
            given(
                seq![
                    cors.allow_origin,
                    cors.allow_credentials,
                    cors.allow_private_network,
                    cors.vary,
                    cors.allow_methods,
                    cors.allow_headers,
                    cors.max_age,
                ],
                name,
            ),
        ),
{
    lemma_fixed_names();
    let p4 = seq![
        cors.allow_origin,
        cors.allow_credentials,
        cors.allow_private_network,
        cors.vary,
    ];
    lemma_common_given(cors, p4);
    let m4 = common_headers(cors);
    lemma_with_pair_given(m4, p4, cors.allow_methods);
    let p5 = p4.push(cors.allow_methods);
    let m5 = with_pair(m4, cors.allow_methods);
    lemma_with_pair_given(m5, p5, cors.allow_headers);
    let p6 = p5.push(cors.allow_headers);
    let m6 = with_pair(m5, cors.allow_headers);
    lemma_with_pair_given(m6, p6, cors.max_age);
    let p7 = p6.push(cors.max_age);
    let m7 = with_pair(m6, cors.max_age);
    assert(p7 =~= seq![
        cors.allow_origin,
        cors.allow_credentials,
        cors.allow_private_network,
        cors.vary,
        cors.allow_methods,
        cors.allow_headers,
        cors.max_age,
    ]);
    assert(holds(m7, name, given(p7, name)));
}

/// The response to any other request has, besides the fixed headers, those that the settings give in
/// place of its own, and its own where they give none. What it varies by is its own with the first
/// that the settings give behind.
pub proof fn law_response_keeps_what_is_not_given(
    entries: Entries,
    cors: CorsHeaders,
    name: Seq<char>,
)
    requires
        !is_fixed(name),
    ensures
        ({
            let values = given(
                seq![
                    cors.allow_origin,
                    cors.allow_credentials,
                    cors.allow_private_network,
                    cors.vary,
                    cors.expose_headers,
                ],
                name,
            );
            let shared = shared_headers(entries, cors);
            if values.len() == 0 {
                &&& shared.contains_key(name) == entries.contains_key(name)
                &&& entries.contains_key(name) ==> shared[name] == entries[name]
            } else if name == "vary"@ {
                &&& shared.contains_key(name)
                &&& shared[name] == if entries.contains_key(name) {
                    entries[name].push(values[0])
                } else {
                    seq![values[0]]
                }
            } else {
                &&& shared.contains_key(name)
                &&& shared[name] == values
            }
        }),
{
    lemma_fixed_names();
    reveal_strlit("vary");
    assert(ascii_lowered("vary"@) =~= "vary"@);
    let p4 = seq![
        cors.allow_origin,
        cors.allow_credentials,
        cors.allow_private_network,
        cors.vary,
    ];
    lemma_common_given(cors, p4);
    let m4 = common_headers(cors);
    lemma_with_pair_given(m4, p4, cors.expose_headers);
    let p5 = p4.push(cors.expose_headers);
    let m5 = with_pair(m4, cors.expose_headers);
    assert(p5 =~= seq![
        cors.allow_origin,
        cors.allow_credentials,
        cors.allow_private_network,
        cors.vary,
        cors.expose_headers,
    ]);
    assert(holds(m5, name, given(p5, name)));
    assert(holds(m5, "vary"@, given(p5, "vary"@)));
    assert(m5 == exposed_headers(cors));
    let values = given(p5, "vary"@);
    if name == "vary"@ && values.len() > 0 && !entries.contains_key(name) {
        assert(Seq::<Seq<u8>>::empty().push(values[0]) =~= seq![values[0]]);
    }
}

} // verus!
