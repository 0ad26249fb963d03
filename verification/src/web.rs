//! Request-level rules of the web server: which address a request comes
//! from, who is logged in as administrator or as a client machine, the
//! login cookies, and versioned static assets.
use vstd::prelude::*;
use crate::text::{
    chars_of, chars_equal, concat_chars, find_char, first_index, is_first_index, split_char,
    split_chars, slice_chars, string_from_chars, trim, trim_chars, before_first, chars_before,
    contains_char, lemma_split_first_piece, int_text, int_to_text, starts_with, parse_i32,
    i32_text_value,
};
use crate::net::{IpAddress, IpRange, in_any_range, is_trusted_proxy};

verus! {

// ---------------------------------------------------------------- client address

/// The address a forwarding header names: the value trimmed; `[v6]` or
/// `[v6]:port` gives what is inside the brackets; a bare IPv6 address (a
/// colon and no dot) is kept whole; otherwise a port after `:` is cut off.
pub open spec fn header_ip_text(value: Seq<char>) -> Option<Seq<char>> {
    let ip = trim(value);
    if ip.len() == 0 {
        None
    } else if ip[0] == '[' && ip.contains(']') {
        Some(ip.subrange(1, first_index(ip, ']')))
    } else if ip[0] != '[' && ip.contains(':') && !ip.contains('.') {
        Some(ip)
    } else {
        Some(before_first(ip, ':'))
    }
}

/// Reads the address in a forwarding header.
pub fn extract_ip_from_header(value: &str) -> (res: Option<String>)
    ensures
        match header_ip_text(value@) {
            Some(t) => res matches Some(s) && s@ == t,
            None => res is None,
        },
{
    let all = chars_of(value);
    let ip = trim_chars(&all);
    if ip.len() == 0 {
        return None;
    }
    if ip[0] == '[' {
        match find_char(&ip, ']') {
            Some(end) => {
                assert(end >= 1);
                let inner = slice_chars(&ip, 1, end);
                return Some(string_from_chars(&inner));
            },
            None => {},
        }
    } else if contains_char(&ip, ':') && !contains_char(&ip, '.') {
        return Some(string_from_chars(&ip));
    }
    let head = chars_before(&ip, ':');
    Some(string_from_chars(&head))
}

/// The address the forwarding headers name: the last entry of
/// `X-Forwarded-For`, or else `X-Real-IP`.
pub open spec fn forwarded_ip(
    forwarded_for: Option<Seq<char>>,
    real_ip: Option<Seq<char>>,
) -> Option<Seq<char>> {
    let from_list = match forwarded_for {
        Some(v) => header_ip_text(split_char(v, ',').last()),
        None => None,
    };
    match from_list {
        Some(ip) => Some(ip),
        None => match real_ip {
            Some(v) => header_ip_text(v),
            None => None,
        },
    }
}

/// The text of an optional string.
pub open spec fn opt_view(o: Option<String>) -> Option<Seq<char>> {
    match o {
        Some(s) => Some(s@),
        None => None,
    }
}

/// Reads the address the forwarding headers name.
pub fn header_client_ip(forwarded_for: Option<String>, real_ip: Option<String>) -> (res: Option<
    String,
>)
    ensures
        opt_view(res) == forwarded_ip(opt_view(forwarded_for), opt_view(real_ip)),
{
    let from_list = match &forwarded_for {
        Some(v) => {
            let cs = chars_of(v.as_str());
            let parts = split_chars(&cs, ',');
            proof {
                crate::text::lemma_split_char_nonempty(cs@, ',');
            }
            let last = string_from_chars(&parts[parts.len() - 1]);
            assert(last@ == split_char(v@, ',').last());
            extract_ip_from_header(last.as_str())
        },
        None => None,
    };
    match from_list {
        Some(ip) => Some(ip),
        None => match &real_ip {
            Some(v) => extract_ip_from_header(v.as_str()),
            None => None,
        },
    }
}

/// Where the client address of a request is taken from.
pub enum ClientIpSource {
    /// The address a forwarding header names.
    Header(String),
    /// The address of the connection's peer.
    Peer,
    /// Neither is known: the address is empty.
    Unknown,
}

/// Decides where the client address comes from. Without trusted proxies
/// the connection's peer is used; with them, the forwarding headers count
/// only when the peer is one of them (or the peer is unknown).
pub fn client_ip_source(
    peer: Option<IpAddress>,
    header_ip: Option<String>,
    trusted: &Option<Vec<IpRange>>,
) -> (res: ClientIpSource)
    requires
        trusted matches Some(list) ==> forall|i: int|
            0 <= i < list@.len() ==> (#[trigger] list@[i]).well_formed(),
    ensures
        match trusted {
            Some(list) => match peer {
                Some(p) => if in_any_range(p, list@) {
                    match header_ip {
                        Some(h) => res matches ClientIpSource::Header(s) && s@ == h@,
                        None => res is Peer,
                    }
                } else {
                    res is Peer
                },
                None => match header_ip {
                    Some(h) => res matches ClientIpSource::Header(s) && s@ == h@,
                    None => res is Unknown,
                },
            },
            None => match peer {
                Some(_) => res is Peer,
                None => res is Unknown,
            },
        },
{
    match trusted {
        Some(list) => match peer {
            Some(p) => {
                if is_trusted_proxy(&p, list.as_slice()) {
                    match header_ip {
                        Some(h) => ClientIpSource::Header(h),
                        None => ClientIpSource::Peer,
                    }
                } else {
                    ClientIpSource::Peer
                }
            },
            None => match header_ip {
                Some(h) => ClientIpSource::Header(h),
                None => ClientIpSource::Unknown,
            },
        },
        None => match peer {
            Some(_) => ClientIpSource::Peer,
            None => ClientIpSource::Unknown,
        },
    }
}

/// The client address of a request.
pub struct ClientIp(pub String);

/// The client address a request is credited to: what `client_ip_source`
/// picks, the peer's text when it picks the peer, empty when nothing is
/// known.
pub open spec fn resolved_ip(
    peer: Option<(IpAddress, Seq<char>)>,
    header_ip: Option<Seq<char>>,
    trusted: Option<Seq<IpRange>>,
) -> Seq<char> {
    let peer_text = match peer {
        Some((_, t)) => t,
        None => Seq::<char>::empty(),
    };
    let header_counts = match trusted {
        Some(list) => match peer {
            Some((p, _)) => in_any_range(p, list),
            None => true,
        },
        None => false,
    };
    if header_counts && header_ip is Some {
        header_ip->0
    } else {
        peer_text
    }
}

/// The ranges of an optional list.
pub open spec fn ranges_view(trusted: Option<Vec<IpRange>>) -> Option<Seq<IpRange>> {
    match trusted {
        Some(list) => Some(list@),
        None => None,
    }
}

impl ClientIp {
    /// The client address of a request, from its peer (the address and its
    /// text), the address the forwarding headers name, and the trusted
    /// proxies.
    pub fn resolve(
        peer: Option<(IpAddress, String)>,
        header_ip: Option<String>,
        trusted: &Option<Vec<IpRange>>,
    ) -> (res: ClientIp)
        requires
            trusted matches Some(list) ==> forall|i: int|
                0 <= i < list@.len() ==> (#[trigger] list@[i]).well_formed(),
        ensures
            res.0@ == resolved_ip(
                match peer {
                    Some((a, t)) => Some((a, t@)),
                    None => None,
                },
                opt_view(header_ip),
                ranges_view(*trusted),
            ),
    {
        let (addr, text) = match peer {
            Some((a, t)) => (Some(a), t),
            None => (None, String::new()),
        };
        match client_ip_source(addr, header_ip, trusted) {
            ClientIpSource::Header(h) => ClientIp(h),
            ClientIpSource::Peer => ClientIp(text),
            ClientIpSource::Unknown => ClientIp(String::new()),
        }
    }
}

// ---------------------------------------------------------------- cookies and tokens

/// The `;`-separated pieces of the `Cookie` headers, trimmed, in order.
pub open spec fn cookie_pieces(headers: Seq<Seq<char>>) -> Seq<Seq<char>>
    decreases headers.len(),
{
    if headers.len() == 0 {
        Seq::<Seq<char>>::empty()
    } else {
        cookie_pieces(headers.drop_last()) + split_char(headers.last(), ';').map_values(
            |p: Seq<char>| trim(p),
        )
    }
}

/// What follows `key` in the first piece that begins with it.
pub open spec fn first_with_prefix(pieces: Seq<Seq<char>>, key: Seq<char>) -> Option<Seq<char>>
    decreases pieces.len(),
{
    if pieces.len() == 0 {
        None
    } else if key.len() <= pieces[0].len() && pieces[0].subrange(0, key.len() as int) == key {
        Some(pieces[0].subrange(key.len() as int, pieces[0].len() as int))
    } else {
        first_with_prefix(pieces.drop_first(), key)
    }
}

/// The value of cookie `name` in the `Cookie` headers: the first
/// `name=value` piece.
pub open spec fn cookie_value(headers: Seq<Seq<char>>, name: Seq<char>) -> Option<Seq<char>> {
    first_with_prefix(cookie_pieces(headers), name.push('='))
}

/// Reads cookie `name` from the `Cookie` headers.
pub fn extract_cookie(headers: &Vec<String>, name: &str) -> (res: Option<String>)
    ensures
        opt_view(res) == cookie_value(headers@.map_values(|h: String| h@), name@),
{
    let ghost hv = headers@.map_values(|h: String| h@);
    let mut pieces: Vec<Vec<char>> = Vec::new();
    let mut i: usize = 0;
    assert(hv.take(0) =~= Seq::<Seq<char>>::empty());
    while i < headers.len()
        invariant
            i <= headers.len(),
            hv == headers@.map_values(|h: String| h@),
            pieces@.map_values(|p: Vec<char>| p@) == cookie_pieces(hv.take(i as int)),
        decreases headers.len() - i,
    {
        let cs = chars_of(headers[i].as_str());
        let parts = split_chars(&cs, ';');
        let ghost before = pieces@.map_values(|p: Vec<char>| p@);
        let ghost added = split_char(cs@, ';').map_values(|p: Seq<char>| trim(p));
        let mut k: usize = 0;
        while k < parts.len()
            invariant
                k <= parts.len() == split_char(cs@, ';').len(),
                forall|j: int| 0 <= j < parts@.len() ==> #[trigger] parts@[j]@ == split_char(
                    cs@,
                    ';',
                )[j],
                added == split_char(cs@, ';').map_values(|p: Seq<char>| trim(p)),
                pieces@.map_values(|p: Vec<char>| p@) == before + added.take(k as int),
            decreases parts.len() - k,
        {
            let t = trim_chars(&parts[k]);
            assert(added[k as int] == t@);
            let ghost prev = pieces@;
            pieces.push(t);
            assert(pieces@ == prev.push(t));
            assert(pieces@.map_values(|p: Vec<char>| p@) =~= prev.map_values(|p: Vec<char>| p@).push(
                t@,
            ));
            assert(added.take(k + 1) =~= added.take(k as int).push(t@));
            k = k + 1;
            assert(pieces@.map_values(|p: Vec<char>| p@) =~= before + added.take(k as int));
        }
        assert(added.take(parts.len() as int) =~= added);
        assert(hv.take(i + 1).drop_last() =~= hv.take(i as int));
        assert(hv[i as int] == cs@);
        i = i + 1;
    }
    assert(hv.take(headers.len() as int) =~= hv);
    let ghost pv = pieces@.map_values(|p: Vec<char>| p@);
    let nm = chars_of(name);
    let mut key = nm;
    key.push('=');
    let mut j: usize = 0;
    assert(pv.subrange(0, pv.len() as int) =~= pv);
    while j < pieces.len()
        invariant
            j <= pieces.len(),
            pv == pieces@.map_values(|p: Vec<char>| p@),
            hv == headers@.map_values(|h: String| h@),
            pv == cookie_pieces(hv),
            key@ == name@.push('='),
            first_with_prefix(pv, key@) == first_with_prefix(
                pv.subrange(j as int, pv.len() as int),
                key@,
            ),
        decreases pieces.len() - j,
    {
        let piece = &pieces[j];
        let ghost rest = pv.subrange(j as int, pv.len() as int);
        assert(rest[0] == piece@);
        if starts_with(piece, &key) {
            let value = slice_chars(piece, key.len(), piece.len());
            assert(rest.len() > 0);
            assert(first_with_prefix(rest, key@) == Some(piece@.subrange(
                key@.len() as int,
                piece@.len() as int,
            )));
            return Some(string_from_chars(&value));
        }
        assert(rest.drop_first() =~= pv.subrange(j + 1, pv.len() as int));
        j = j + 1;
    }
    None
}

/// Whether the administrator is logged in on a page: the `admin_token`
/// cookie holds the password.
pub fn admin_page_authorized(cookie_token: &Option<String>, password: &str) -> (r: bool)
    ensures
        r == (opt_view(*cookie_token) == Some(password@)),
{
    match cookie_token {
        Some(t) => chars_equal(&chars_of(t.as_str()), &chars_of(password)),
        None => false,
    }
}

/// Whether a request to the administration API is authorized: the
/// `admin_token` cookie, or else the bearer token, holds the password.
pub fn admin_api_authorized(
    cookie_token: &Option<String>,
    bearer_token: &Option<String>,
    password: &str,
) -> (r: bool)
    ensures
        r == (opt_view(*cookie_token) == Some(password@) || opt_view(*bearer_token) == Some(
            password@,
        )),
{
    if admin_page_authorized(cookie_token, password) {
        return true;
    }
    match bearer_token {
        Some(t) => chars_equal(&chars_of(t.as_str()), &chars_of(password)),
        None => false,
    }
}

/// The administrator, authorized for the administration API.
pub struct AdminAuth;

/// The administrator, logged in on the HTML pages.
pub struct AdminUserWeb;

/// The page that sends a visitor who is not logged in to the login page.
pub open spec fn login_redirect_page() -> Seq<char> {
    "<!DOCTYPE html><html><head><meta charset=\"UTF-8\"><title>Unauthorized</title><script>window.location.href='/admin/login';</script></head><body></body></html>"@
}

impl AdminAuth {
    /// Authorizes a request to the administration API by the `admin_token`
    /// cookie or the bearer token; otherwise 401 with `Login required`.
    pub fn authorize(
        cookie_token: &Option<String>,
        bearer_token: &Option<String>,
        password: &str,
    ) -> (res: Result<AdminAuth, (u16, String)>)
        ensures
            res is Ok <==> (opt_view(*cookie_token) == Some(password@) || opt_view(*bearer_token)
                == Some(password@)),
            res matches Err((status, msg)) ==> status == 401 && msg@ == "Login required"@,
    {
        if admin_api_authorized(cookie_token, bearer_token, password) {
            Ok(AdminAuth)
        } else {
            Err((401, "Login required".to_string()))
        }
    }
}

impl AdminUserWeb {
    /// Authorizes a page request by the `admin_token` cookie; otherwise 401
    /// with a page that sends the visitor to the login page.
    pub fn authorize(cookie_token: &Option<String>, password: &str) -> (res: Result<
        AdminUserWeb,
        (u16, String),
    >)
        ensures
            res is Ok <==> opt_view(*cookie_token) == Some(password@),
            res matches Err((status, page)) ==> status == 401 && page@ == login_redirect_page(),
    {
        if admin_page_authorized(cookie_token, password) {
            Ok(AdminUserWeb)
        } else {
            Err(
                (
                    401,
                    "<!DOCTYPE html><html><head><meta charset=\"UTF-8\"><title>Unauthorized</title><script>window.location.href='/admin/login';</script></head><body></body></html>".to_string(),
                ),
            )
        }
    }
}

/// A client token `mid:key`: the machine id (0 when it does not read as a
/// number) and the key after the first `:`; `None` without a `:`.
pub open spec fn api_token_parts(token: Seq<char>) -> Option<(i32, Seq<char>)> {
    if token.contains(':') {
        let k = first_index(token, ':');
        let mid = match i32_text_value(token.subrange(0, k)) {
            Some(v) => v,
            None => 0,
        };
        Some((mid, token.subrange(k + 1, token.len() as int)))
    } else {
        None
    }
}

/// Splits a client token into machine id and key.
pub fn parse_api_token(token: &str) -> (res: Option<(i32, String)>)
    ensures
        match api_token_parts(token@) {
            Some((mid, key)) => res matches Some((m, k)) && m == mid && k@ == key,
            None => res is None,
        },
{
    let cs = chars_of(token);
    match find_char(&cs, ':') {
        Some(k) => {
            let mid_text = slice_chars(&cs, 0, k);
            let key = slice_chars(&cs, k + 1, cs.len());
            let mid = match parse_i32(&mid_text) {
                Some(v) => v,
                None => 0,
            };
            Some((mid, string_from_chars(&key)))
        },
        None => None,
    }
}

/// Whether the key a client sent is the machine's key.
pub fn client_key_accepted(machine_key: &str, key: &str) -> (r: bool)
    ensures
        r == (machine_key@ == key@),
{
    chars_equal(&chars_of(machine_key), &chars_of(key))
}

/// A client machine, authenticated by its token.
pub struct ApiClient(pub crate::dto::Machine);

/// What authenticating a client does next.
pub enum ApiClientStep {
    /// Look the machine up by this id and compare its key with this one.
    Lookup(i32, String),
    /// Refuse with 401 and this message.
    Refuse(String),
}

/// The first step of authenticating a client: without a bearer token it is
/// refused; a token without `:` is refused as malformed; otherwise the
/// machine it names is looked up.
pub fn api_client_begin(bearer_token: &Option<String>) -> (res: ApiClientStep)
    ensures
        match opt_view(*bearer_token) {
            None => res matches ApiClientStep::Refuse(m) && m@ == "Api token required"@,
            Some(t) => match api_token_parts(t) {
                None => res matches ApiClientStep::Refuse(m) && m@ == "Invalid API token format"@,
                Some((mid, key)) => res matches ApiClientStep::Lookup(i, k) && i == mid && k@
                    == key,
            },
        },
{
    match bearer_token {
        None => ApiClientStep::Refuse("Api token required".to_string()),
        Some(t) => match parse_api_token(t.as_str()) {
            None => ApiClientStep::Refuse("Invalid API token format".to_string()),
            Some((mid, key)) => ApiClientStep::Lookup(mid, key),
        },
    }
}

/// The last step: the machine found (if any) is the client when its key is
/// the one sent; otherwise 401 with `Api token required`.
pub fn api_client_finish(machine: Option<crate::dto::Machine>, key: &str) -> (res: Result<
    ApiClient,
    (u16, String),
>)
    ensures
        match machine {
            Some(m) => if m.key@ == key@ {
                res matches Ok(c) && c.0 == m
            } else {
                res matches Err((s, msg)) && s == 401 && msg@ == "Api token required"@
            },
            None => res matches Err((s, msg)) && s == 401 && msg@ == "Api token required"@,
        },
{
    match machine {
        Some(m) => {
            if client_key_accepted(m.key.as_str(), key) {
                Ok(ApiClient(m))
            } else {
                Err((401, "Api token required".to_string()))
            }
        },
        None => Err((401, "Api token required".to_string())),
    }
}

// ---------------------------------------------------------------- login cookies

/// Whether the request came over HTTPS, as the proxy headers say.
pub fn is_https(forwarded_proto: &Option<String>, forwarded_scheme: &Option<String>) -> (r: bool)
    ensures
        r == (opt_view(*forwarded_proto) == Some("https"@) || opt_view(*forwarded_scheme) == Some(
            "https"@,
        )),
{
    let https = chars_of("https");
    let a = match forwarded_proto {
        Some(p) => chars_equal(&chars_of(p.as_str()), &https),
        None => false,
    };
    let b = match forwarded_scheme {
        Some(p) => chars_equal(&chars_of(p.as_str()), &https),
        None => false,
    };
    a || b
}

/// The `Secure` attribute, set over HTTPS only.
pub open spec fn secure_flag(https: bool) -> Seq<char> {
    if https {
        "Secure; "@
    } else {
        Seq::<char>::empty()
    }
}

/// The cookie that logs the administrator in.
pub open spec fn login_cookie_text(password: Seq<char>, https: bool) -> Seq<char> {
    "admin_token="@ + password + "; Path=/; HttpOnly; SameSite=Strict; "@ + secure_flag(https)
}

/// The cookie that logs the administrator out.
pub open spec fn logout_cookie_text(https: bool) -> Seq<char> {
    "admin_token=; Path=/; Expires=Thu, 01 Jan 1970 00:00:00 GMT; HttpOnly; SameSite=Strict; "@
        + secure_flag(https)
}

fn flag_chars(https: bool) -> (res: Vec<char>)
    ensures
        res@ == secure_flag(https),
{
    if https {
        chars_of("Secure; ")
    } else {
        let v: Vec<char> = Vec::new();
        assert(v@ =~= Seq::<char>::empty());
        v
    }
}

/// Builds the login cookie.
pub fn login_cookie(password: &str, https: bool) -> (res: String)
    ensures
        res@ == login_cookie_text(password@, https),
{
    let a = chars_of("admin_token=");
    let b = chars_of(password);
    let c = chars_of("; Path=/; HttpOnly; SameSite=Strict; ");
    let d = flag_chars(https);
    let ab = concat_chars(&a, &b);
    let abc = concat_chars(&ab, &c);
    let all = concat_chars(&abc, &d);
    string_from_chars(&all)
}

/// Builds the logout cookie.
pub fn logout_cookie(https: bool) -> (res: String)
    ensures
        res@ == logout_cookie_text(https),
{
    let a = chars_of(
        "admin_token=; Path=/; Expires=Thu, 01 Jan 1970 00:00:00 GMT; HttpOnly; SameSite=Strict; ",
    );
    let d = flag_chars(https);
    let all = concat_chars(&a, &d);
    string_from_chars(&all)
}

/// The answer to a login or logout: status, the cookie to set, and the body.
pub struct LoginReply {
    pub status: u16,
    pub cookie: Option<String>,
    pub body: String,
}

/// Answers a login: a wrong password is refused with 401; the right one
/// sets the login cookie (marked secure when the request came over HTTPS).
pub fn admin_login_reply(
    admin_password: &str,
    password: &str,
    forwarded_proto: &Option<String>,
    forwarded_scheme: &Option<String>,
) -> (res: LoginReply)
    ensures
        admin_password@ != password@ ==> res.status == 401 && res.cookie is None && res.body@
            == "Invalid password"@,
        admin_password@ == password@ ==> res.status == 200 && res.body@ == "Login successful"@,
        admin_password@ == password@ ==> (res.cookie matches Some(c) && c@ == login_cookie_text(
            password@,
            opt_view(*forwarded_proto) == Some("https"@) || opt_view(*forwarded_scheme) == Some(
                "https"@,
            ),
        )),
{
    if !chars_equal(&chars_of(admin_password), &chars_of(password)) {
        return LoginReply { status: 401, cookie: None, body: "Invalid password".to_string() };
    }
    let https = is_https(forwarded_proto, forwarded_scheme);
    LoginReply {
        status: 200,
        cookie: Some(login_cookie(password, https)),
        body: "Login successful".to_string(),
    }
}

/// Answers a logout: the cookie that clears the login.
pub fn admin_logout_reply(forwarded_proto: &Option<String>, forwarded_scheme: &Option<String>) -> (res:
    LoginReply)
    ensures
        res.status == 200,
        res.body@ == "Logout successful"@,
        res.cookie matches Some(c) && c@ == logout_cookie_text(
            opt_view(*forwarded_proto) == Some("https"@) || opt_view(*forwarded_scheme) == Some(
                "https"@,
            ),
        ),
{
    let https = is_https(forwarded_proto, forwarded_scheme);
    LoginReply { status: 200, cookie: Some(logout_cookie(https)), body: "Logout successful".to_string() }
}

// ---------------------------------------------------------------- static assets

/// The query of a static asset request: the version it was linked with.
pub struct AssetQuery {
    pub v: Option<String>,
}

/// Lowercase hexadecimal, two digits per byte.
pub open spec fn hex_lower(b: Seq<u8>) -> Seq<char>
    decreases b.len(),
{
    if b.len() == 0 {
        Seq::<char>::empty()
    } else {
        hex_lower(b.drop_last()) + seq![hex_digit_char(b.last() as nat / 16), hex_digit_char(
            b.last() as nat % 16,
        )]
    }
}

/// The lowercase hexadecimal digit of `d`.
pub open spec fn hex_digit_char(d: nat) -> char {
    if d < 10 {
        (('0' as u32) + d) as char
    } else {
        (('a' as u32) + (d - 10)) as char
    }
}

/// Encodes bytes with `hex::encode`.
///
/// Trusted: the crate documents the result as lowercase hexadecimal, two
/// characters per byte, which is what the contract spells out.
#[verifier::external_body]
fn hex_encode(bytes: &[u8]) -> (res: String)
    ensures
        res@ == hex_lower(bytes@),
{
    hex::encode(bytes)
}

/// Hex of the bytes has two digits for each byte, and the hex of a prefix
/// is a prefix of the hex.
pub proof fn lemma_hex_prefix(b: Seq<u8>, k: int)
    requires
        0 <= k <= b.len(),
    ensures
        hex_lower(b).len() == 2 * b.len(),
        hex_lower(b.subrange(0, k)) == hex_lower(b).subrange(0, 2 * k),
    decreases b.len(),
{
    if b.len() == 0 {
        assert(b.subrange(0, k) =~= b);
    } else {
        let t = b.drop_last();
        if k < b.len() {
            lemma_hex_prefix(t, k);
            assert(t.subrange(0, k) =~= b.subrange(0, k));
            assert(hex_lower(b).subrange(0, 2 * k) =~= hex_lower(t).subrange(0, 2 * k));
        } else {
            lemma_hex_prefix(t, 0);
            assert(b.subrange(0, k) =~= b);
            assert(hex_lower(b).subrange(0, 2 * k) =~= hex_lower(b));
        }
    }
}

/// The version of an asset: the first eight hex digits of its SHA-256.
pub open spec fn asset_version_text(sha256: Seq<u8>) -> Seq<char> {
    hex_lower(sha256).subrange(0, 8)
}

/// The version of an asset: the first eight hex digits of its SHA-256.
pub fn asset_version(sha256: &[u8; 32]) -> (res: String)
    ensures
        res@ == asset_version_text(sha256@),
{
    let mut first: Vec<u8> = Vec::new();
    let mut i: usize = 0;
    while i < 4
        invariant
            i <= 4,
            first@ == sha256@.subrange(0, i as int),
        decreases 4 - i,
    {
        first.push(sha256[i]);
        i = i + 1;
        assert(first@ =~= sha256@.subrange(0, i as int));
    }
    proof {
        lemma_hex_prefix(sha256@, 4);
    }
    hex_encode(first.as_slice())
}

/// The version recorded for `path`: the last entry for it.
pub open spec fn version_of(versions: Seq<(Seq<char>, Seq<char>)>, path: Seq<char>) -> Option<
    Seq<char>,
>
    decreases versions.len(),
{
    if versions.len() == 0 {
        None
    } else if versions.last().0 == path {
        Some(versions.last().1)
    } else {
        version_of(versions.drop_last(), path)
    }
}

/// A version table as text pairs.
pub open spec fn versions_view(versions: Seq<(String, String)>) -> Seq<(Seq<char>, Seq<char>)> {
    versions.map_values(|e: (String, String)| (e.0@, e.1@))
}

/// The version recorded for `path`.
pub fn lookup_version(versions: &Vec<(String, String)>, path: &str) -> (res: Option<String>)
    ensures
        opt_view(res) == version_of(versions_view(versions@), path@),
{
    let ghost vv = versions_view(versions@);
    let p = chars_of(path);
    let mut i: usize = versions.len();
    assert(vv.take(i as int) =~= vv);
    while i > 0
        invariant
            i <= versions.len(),
            p@ == path@,
            vv == versions_view(versions@),
            version_of(vv, path@) == version_of(vv.take(i as int), path@),
        decreases i,
    {
        let ghost t = vv.take(i as int);
        assert(t.last() == (versions@[i - 1].0@, versions@[i - 1].1@));
        if chars_equal(&chars_of(versions[i - 1].0.as_str()), &p) {
            let found = versions[i - 1].1.clone();
            assert(version_of(t, path@) == Some(versions@[i - 1].1@));
            assert(found@ == versions@[i - 1].1@);
            return Some(found);
        }
        assert(version_of(t, path@) == version_of(t.drop_last(), path@));
        assert(t.drop_last() =~= vv.take(i - 1));
        i = i - 1;
    }
    None
}

/// The URL of a static asset: with `?v=` and its version when it has one.
pub open spec fn asset_url_text(versions: Seq<(Seq<char>, Seq<char>)>, path: Seq<char>) -> Seq<
    char,
> {
    match version_of(versions, path) {
        Some(v) => "/static/"@ + path + "?v="@ + v,
        None => "/static/"@ + path,
    }
}

/// The URL of a static asset, e.g. `/static/js/app.js?v=a3f2b1c0`.
pub fn asset_url(versions: &Vec<(String, String)>, path: &str) -> (res: String)
    ensures
        res@ == asset_url_text(versions_view(versions@), path@),
{
    let a = chars_of("/static/");
    let p = chars_of(path);
    let ap = concat_chars(&a, &p);
    match lookup_version(versions, path) {
        Some(v) => {
            let q = chars_of("?v=");
            let vv = chars_of(v.as_str());
            let apq = concat_chars(&ap, &q);
            let all = concat_chars(&apq, &vv);
            string_from_chars(&all)
        },
        None => string_from_chars(&ap),
    }
}

/// An embedded asset: its path, the SHA-256 of its content, and its size.
pub struct AssetFile {
    pub path: String,
    pub sha256: [u8; 32],
    pub len: usize,
}

/// No two files share a path.
pub open spec fn distinct_paths(files: Seq<AssetFile>) -> bool {
    forall|j: int, k: int|
        0 <= j < files.len() && 0 <= k < files.len() && j != k ==> (#[trigger] files[j]).path@
            != (#[trigger] files[k]).path@
}

/// The embedded static assets: no two share a path.
pub struct Assets {
    files: Vec<AssetFile>,
}

/// The version table of the assets: each path with its version.
pub open spec fn asset_versions(files: Seq<AssetFile>) -> Seq<(Seq<char>, Seq<char>)> {
    files.map_values(|f: AssetFile| (f.path@, asset_version_text(f.sha256@)))
}

/// The first file at `path`.
pub open spec fn asset_at(files: Seq<AssetFile>, path: Seq<char>) -> Option<AssetFile>
    decreases files.len(),
{
    if files.len() == 0 {
        None
    } else if files[0].path@ == path {
        Some(files[0])
    } else {
        asset_at(files.drop_first(), path)
    }
}

/// The version and size under which the asset at `path` is served.
pub open spec fn served_as(files: Seq<AssetFile>, path: Seq<char>) -> Option<(Seq<char>, usize)> {
    match asset_at(files, path) {
        Some(f) => Some((asset_version_text(f.sha256@), f.len)),
        None => None,
    }
}

/// With distinct paths, the version table gives each file's path the
/// file's version.
pub proof fn lemma_version_of_distinct(files: Seq<AssetFile>, i: int)
    requires
        0 <= i < files.len(),
        distinct_paths(files),
    ensures
        version_of(asset_versions(files), files[i].path@) == Some(
            asset_version_text(files[i].sha256@),
        ),
    decreases files.len(),
{
    let vs = asset_versions(files);
    let t = files.drop_last();
    assert(vs.drop_last() =~= asset_versions(t));
    if i < files.len() - 1 {
        assert(files[files.len() - 1].path@ != files[i].path@);
        assert forall|j: int, k: int|
            0 <= j < t.len() && 0 <= k < t.len() && j != k implies (#[trigger] t[j]).path@ != (
            #[trigger] t[k]).path@ by {
            assert(t[j] == files[j]);
            assert(t[k] == files[k]);
        }
        lemma_version_of_distinct(t, i);
        assert(t[i] == files[i]);
    }
}

/// The first file at a path is the one the index finds when no earlier
/// file has that path.
proof fn lemma_asset_at(files: Seq<AssetFile>, i: int, path: Seq<char>)
    requires
        0 <= i <= files.len(),
        forall|j: int| 0 <= j < i ==> #[trigger] files[j].path@ != path,
    ensures
        asset_at(files, path) == asset_at(files.subrange(i, files.len() as int), path),
    decreases i,
{
    if i > 0 {
        let d = files.drop_first();
        assert forall|j: int| 0 <= j < i - 1 implies #[trigger] d[j].path@ != path by {
            assert(d[j] == files[j + 1]);
        }
        lemma_asset_at(d, i - 1, path);
        assert(d.subrange(i - 1, d.len() as int) =~= files.subrange(i, files.len() as int));
    } else {
        assert(files.subrange(0, files.len() as int) =~= files);
    }
}

impl View for Assets {
    type V = Seq<AssetFile>;

    closed spec fn view(&self) -> Seq<AssetFile> {
        self.files@
    }
}

impl Assets {
    #[verifier::type_invariant]
    spec fn paths_distinct(self) -> bool {
        distinct_paths(self.files@)
    }

    /// The assets of the files, when no two share a path.
    pub fn new(files: Vec<AssetFile>) -> (res: Option<Assets>)
        ensures
            res is Some <==> distinct_paths(files@),
            res matches Some(a) ==> a@ == files@,
    {
        let n = files.len();
        let mut j: usize = 0;
        while j < n
            invariant
                j <= n == files.len(),
                forall|a: int, b: int|
                    0 <= a < j && 0 <= b < n && a != b ==> (#[trigger] files@[a]).path@ != (
                    #[trigger] files@[b]).path@,
            decreases n - j,
        {
            let pj = chars_of(files[j].path.as_str());
            let mut k: usize = 0;
            while k < n
                invariant
                    j < n == files.len(),
                    k <= n,
                    pj@ == files@[j as int].path@,
                    forall|a: int, b: int|
                        0 <= a < j && 0 <= b < n && a != b ==> (#[trigger] files@[a]).path@ != (
                        #[trigger] files@[b]).path@,
                    forall|b: int|
                        0 <= b < k && b != j ==> (#[trigger] files@[b]).path@ != files@[j as int].path@,
                decreases n - k,
            {
                if k != j && chars_equal(&chars_of(files[k].path.as_str()), &pj) {
                    assert(!distinct_paths(files@)) by {
                        assert(files@[j as int].path@ == files@[k as int].path@);
                    }
                    return None;
                }
                k = k + 1;
            }
            j = j + 1;
        }
        Some(Assets { files })
    }

    /// The version of every asset, by path; each asset's path gets its own
    /// version.
    pub fn versions(&self) -> (res: Vec<(String, String)>)
        ensures
            versions_view(res@) == asset_versions(self@),
            forall|i: int|
                0 <= i < self@.len() ==> version_of(versions_view(res@), (#[trigger] self@[i]).path@)
                    == Some(asset_version_text(self@[i].sha256@)),
    {
        proof {
            use_type_invariant(self);
        }
        let mut out: Vec<(String, String)> = Vec::new();
        let mut i: usize = 0;
        while i < self.files.len()
            invariant
                i <= self.files.len(),
                versions_view(out@) == asset_versions(self.files@.take(i as int)),
            decreases self.files.len() - i,
        {
            let f = &self.files[i];
            let path = string_from_chars(&chars_of(f.path.as_str()));
            let version = asset_version(&f.sha256);
            let ghost before = out@;
            out.push((path, version));
            assert(versions_view(out@) =~= versions_view(before).push((path@, version@)));
            assert(self.files@.take(i + 1) =~= self.files@.take(i as int).push(self.files@[i as int]));
            assert(asset_versions(self.files@.take(i + 1)) =~= asset_versions(
                self.files@.take(i as int),
            ).push((f.path@, asset_version_text(f.sha256@))));
            i = i + 1;
        }
        assert(self.files@.take(self.files@.len() as int) =~= self.files@);
        assert forall|i: int| 0 <= i < self@.len() implies version_of(
            versions_view(out@),
            (#[trigger] self@[i]).path@,
        ) == Some(asset_version_text(self@[i].sha256@)) by {
            lemma_version_of_distinct(self.files@, i);
        }
        out
    }

    /// The version and size of the asset at `path`; it is the version the
    /// table gives that path.
    pub fn lookup(&self, path: &str) -> (res: Option<(String, usize)>)
        ensures
            match served_as(self@, path@) {
                Some((v, n)) => res matches Some((rv, rn)) && rv@ == v && rn == n,
                None => res is None,
            },
            res matches Some((v, _)) ==> version_of(asset_versions(self@), path@) == Some(v@),
    {
        proof {
            use_type_invariant(self);
        }
        let p = chars_of(path);
        let mut i: usize = 0;
        while i < self.files.len()
            invariant
                i <= self.files.len(),
                p@ == path@,
                distinct_paths(self.files@),
                forall|j: int| 0 <= j < i ==> #[trigger] self.files@[j].path@ != path@,
            decreases self.files.len() - i,
        {
            let f = &self.files[i];
            if chars_equal(&chars_of(f.path.as_str()), &p) {
                let v = asset_version(&f.sha256);
                proof {
                    lemma_asset_at(self.files@, i as int, path@);
                    lemma_version_of_distinct(self.files@, i as int);
                }
                return Some((v, f.len));
            }
            i = i + 1;
        }
        proof {
            lemma_asset_at(self.files@, i as int, path@);
        }
        None
    }

    /// Answers a request for the asset at `path`, with the version the URL
    /// asks for and the client's `If-None-Match`. A request by the URL
    /// `asset_url` gives (its version is the table's) is never refused as
    /// another version.
    pub fn serve(&self, path: &str, query: &AssetQuery, if_none_match: &Option<String>) -> (res:
        StaticReply)
        requires
            forall|i: int| 0 <= i < self@.len() ==> (#[trigger] self@[i]).len <= i64::MAX,
        ensures
            reply_for(path@, served_as(self@, path@), opt_view(query.v), opt_view(*if_none_match), res),
            (served_as(self@, path@) is Some && opt_view(query.v) == version_of(
                asset_versions(self@),
                path@,
            )) ==> (res is Content || res is NotModified),
    {
        let asset = self.lookup(path);
        proof {
            if served_as(self@, path@) is Some {
                lemma_asset_at_member(self@, path@);
            }
        }
        static_reply(path, asset, &query.v, if_none_match)
    }
}

/// The first file at a path is one of the files.
proof fn lemma_asset_at_member(files: Seq<AssetFile>, path: Seq<char>)
    requires
        asset_at(files, path) is Some,
    ensures
        exists|i: int| 0 <= i < files.len() && files[i] == asset_at(files, path)->0,
    decreases files.len(),
{
    if files[0].path@ != path {
        lemma_asset_at_member(files.drop_first(), path);
        let i = choose|i: int|
            0 <= i < files.drop_first().len() && files.drop_first()[i] == asset_at(
                files.drop_first(),
                path,
            )->0;
        assert(files[i + 1] == files.drop_first()[i]);
    } else {
        assert(files[0] == asset_at(files, path)->0);
    }
}

/// The content type that `mime_guess` gives a path: the first type it maps
/// the path's extension to, or `application/octet-stream`.
pub uninterp spec fn mime_of_path(path: Seq<char>) -> Seq<char>;

/// The content type of `path`, with `mime_guess::from_path` and
/// `first_or_octet_stream`.
///
/// Trusted: the guess reads only the extension of the path text and looks
/// it up in the crate's fixed table, so the type is the named result of the
/// path; what the table holds is left to the name.
#[verifier::external_body]
fn content_type_of(path: &str) -> (res: String)
    ensures
        res@ == mime_of_path(path@),
{
    mime_guess::from_path(path).first_or_octet_stream().as_ref().to_string()
}

/// How a static asset request is answered.
pub enum StaticReply {
    /// 404: no such asset.
    NotFound,
    /// 400: the URL names another version; the body says which.
    VersionMismatch(String),
    /// 304: the client's copy is current.
    NotModified,
    /// 200 with the content, under this entity tag and content type.
    Content(String, String),
}

/// The answer to a request for an asset served under `asset` (version and
/// size), with the version asked for and the client's `If-None-Match`: 404
/// without the asset; 400 naming both versions when another version is
/// asked for; otherwise 304 when the client holds the entity tag, else 200
/// under it, with the content type guessed from the asset's `path`.
pub open spec fn reply_for(
    path: Seq<char>,
    asset: Option<(Seq<char>, usize)>,
    requested: Option<Seq<char>>,
    if_none_match: Option<Seq<char>>,
    res: StaticReply,
) -> bool {
    match asset {
        None => res is NotFound,
        Some((version, len)) => match requested {
            Some(v) if v != version => res matches StaticReply::VersionMismatch(m) && m@
                == "Asset version mismatch. Expected: "@ + version + ", Got: "@ + v,
            _ => if if_none_match == Some(etag_text(version, len)) {
                res is NotModified
            } else {
                res matches StaticReply::Content(t, m) && t@ == etag_text(version, len) && m@
                    == mime_of_path(path)
            },
        },
    }
}

/// The entity tag of an asset: its version and size, quoted.
pub open spec fn etag_text(version: Seq<char>, len: usize) -> Seq<char> {
    seq!['"'] + version + seq!['-'] + int_text(len as int) + seq!['"']
}

/// Decides the answer to a static asset request for `path`, given the
/// asset's version and size when it exists, the version the URL asks for,
/// and the `If-None-Match` header.
pub fn static_reply(
    path: &str,
    asset: Option<(String, usize)>,
    requested: &Option<String>,
    if_none_match: &Option<String>,
) -> (res: StaticReply)
    requires
        asset matches Some((_, len)) ==> len <= i64::MAX,
    ensures
        reply_for(
            path@,
            match asset {
                Some((v, n)) => Some((v@, n)),
                None => None,
            },
            opt_view(*requested),
            opt_view(*if_none_match),
            res,
        ),
{
    match asset {
        None => StaticReply::NotFound,
        Some((version, len)) => {
            let vc = chars_of(version.as_str());
            match requested {
                Some(v) => {
                    let rc = chars_of(v.as_str());
                    if !chars_equal(&rc, &vc) {
                        let a = chars_of("Asset version mismatch. Expected: ");
                        let b = chars_of(", Got: ");
                        let ab = concat_chars(&a, &vc);
                        let abb = concat_chars(&ab, &b);
                        let all = concat_chars(&abb, &rc);
                        return StaticReply::VersionMismatch(string_from_chars(&all));
                    }
                },
                None => {},
            }
            let mut q: Vec<char> = Vec::new();
            q.push('"');
            let mut dash: Vec<char> = Vec::new();
            dash.push('-');
            let n = int_to_text(len as i64);
            let a = concat_chars(&q, &vc);
            let b = concat_chars(&a, &dash);
            let c = concat_chars(&b, &n);
            let tag = concat_chars(&c, &q);
            assert(q@ =~= seq!['"']);
            assert(dash@ =~= seq!['-']);
            let matches = match if_none_match {
                Some(h) => chars_equal(&chars_of(h.as_str()), &tag),
                None => false,
            };
            if matches {
                StaticReply::NotModified
            } else {
                StaticReply::Content(string_from_chars(&tag), content_type_of(path))
            }
        },
    }
}

} // verus!
