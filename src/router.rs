use vstd::prelude::*;
use vstd::string::{StrSliceExecFns, StringExecFns};
use crate::http::Method;

verus! {

/// Where a request goes, with the path segments it captured.
#[derive(Debug)]
pub enum Route {
    /// `GET /devices`
    ListDevices,
    /// `GET /:device/tracks`
    DeviceTracks(String),
    /// `GET /:device/track`
    CurrentTrack(String),
    /// `PUT /:device/tracks`
    ReplaceQueue(String),
    /// `POST /:device/tracks`
    AppendQueue(String),
    /// `PUT /:device/:cmd`, for any other `cmd`
    Transport(String, String),
    /// Nothing matches.
    NotFound,
}

/// A non-empty path segment: no `/` in it.
pub open spec fn is_segment(s: Seq<char>) -> bool {
    s.len() > 0 && forall|i: int| 0 <= i < s.len() ==> s[i] != '/'
}

/// `p` is `/a/b` with segments `a` and `b`.
pub open spec fn is_two_segments(p: Seq<char>, a: Seq<char>, b: Seq<char>) -> bool {
    is_segment(a) && is_segment(b) && p == seq!['/'] + a + seq!['/'] + b
}

/// The method and the last segment select a per-device route.
pub open spec fn device_route_exists(m: Method, b: Seq<char>) -> bool {
    ||| m == Method::Put
    ||| m == Method::Get && (b == "tracks"@ || b == "track"@)
    ||| m == Method::Post && b == "tracks"@
}

/// Some route matches `m` and `p`.
pub open spec fn route_exists(m: Method, p: Seq<char>) -> bool {
    ||| m == Method::Get && p == "/devices"@
    ||| exists|a: Seq<char>, b: Seq<char>| is_two_segments(p, a, b) && device_route_exists(m, b)
}

/// `p` is `/a/b` with `b` as given, and `d` is `a` decoded.
pub open spec fn device_path(p: Seq<char>, d: Seq<char>, b: Seq<char>) -> bool {
    exists|a: Seq<char>| #[trigger] is_two_segments(p, a, b) && d == percent_decode(a)
}

/// What `route` returns for a request with method `m` on path `p`.
pub open spec fn routes_to(m: Method, p: Seq<char>, r: Route) -> bool {
    match r {
        Route::ListDevices => m == Method::Get && p == "/devices"@,
        Route::DeviceTracks(d) => m == Method::Get && device_path(p, d@, "tracks"@),
        Route::CurrentTrack(d) => m == Method::Get && device_path(p, d@, "track"@),
        Route::ReplaceQueue(d) => m == Method::Put && device_path(p, d@, "tracks"@),
        Route::AppendQueue(d) => m == Method::Post && device_path(p, d@, "tracks"@),
        Route::Transport(d, c) => m == Method::Put && exists|b: Seq<char>|
            device_path(p, d@, b) && b != "tracks"@ && c@ == percent_decode(b),
        Route::NotFound => !route_exists(m, p),
    }
}

pub open spec fn is_hex_digit(c: char) -> bool {
    ('0' <= c && c <= '9') || ('a' <= c && c <= 'f') || ('A' <= c && c <= 'F')
}

pub open spec fn hex_value(c: char) -> int {
    if '0' <= c && c <= '9' {
        c as int - '0' as int
    } else if 'a' <= c && c <= 'f' {
        c as int - 'a' as int + 10
    } else {
        c as int - 'A' as int + 10
    }
}

/// `s` starts with an escape `%XY` of an ASCII character: two hex digits
/// whose value is below 0x80.
pub open spec fn starts_with_escape(s: Seq<char>) -> bool {
    s.len() >= 3 && s[0] == '%' && is_hex_digit(s[1]) && is_hex_digit(s[2]) && hex_value(s[1]) < 8
}

/// `s` with each escape `%XY` of an ASCII character replaced by that
/// character; every other character, a `%` included, stays as it is. Escapes
/// of bytes from 0x80 up, the parts of an escaped non-ASCII character, are
/// kept as written: such a character is matched in its unescaped form.
pub open spec fn percent_decode(s: Seq<char>) -> Seq<char>
    decreases s.len(),
{
    if s.len() == 0 {
        s
    } else if starts_with_escape(s) {
        seq![((hex_value(s[1]) * 16 + hex_value(s[2])) as u8) as char] + percent_decode(
            s.subrange(3, s.len() as int),
        )
    } else {
        seq![s[0]] + percent_decode(s.subrange(1, s.len() as int))
    }
}

/// Relies on `String::push`: appends one character.
#[verifier::external_body]
fn push_char(s: &mut String, c: char)
    ensures
        final(s)@ == old(s)@.push(c),
{
    s.push(c)
}

fn hex_digit(c: char) -> (r: Option<u8>)
    ensures
        r is Some <==> is_hex_digit(c),
        r matches Some(v) ==> v == hex_value(c),
{
    if '0' <= c && c <= '9' {
        Some((c as u32 - '0' as u32) as u8)
    } else if 'a' <= c && c <= 'f' {
        Some((c as u32 - 'a' as u32 + 10) as u8)
    } else if 'A' <= c && c <= 'F' {
        Some((c as u32 - 'A' as u32 + 10) as u8)
    } else {
        None
    }
}

/// Decodes the escapes `%XY` of ASCII characters in a path segment; escapes
/// of bytes from 0x80 up stay as written.
pub fn decode_segment(s: &str) -> (r: String)
    ensures
        r@ == percent_decode(s@),
{
    let n = s.unicode_len();
    let mut out = String::new();
    let mut i: usize = 0;
    assert(s@.subrange(0, n as int) =~= s@);
    assert(out@ + percent_decode(s@) =~= percent_decode(s@));
    while i < n
        invariant
            n == s@.len(),
            i <= n,
            out@ + percent_decode(s@.subrange(i as int, n as int)) == percent_decode(s@),
        decreases n - i,
    {
        let ghost rest = s@.subrange(i as int, n as int);
        let c = s.get_char(i);
        let mut escaped = false;
        if c == '%' && n - i > 2 {
            let h = hex_digit(s.get_char(i + 1));
            let l = hex_digit(s.get_char(i + 2));
            if let (Some(hv), Some(lv)) = (h, l) {
                if hv < 8 {
                    let ghost prev = out@;
                    push_char(&mut out, ((hv * 16 + lv) as u8) as char);
                    proof {
                        assert(rest[0] == c && rest[1] == s@[i + 1] && rest[2] == s@[i + 2]);
                        assert(starts_with_escape(rest));
                        assert(rest.subrange(3, rest.len() as int) =~= s@.subrange(i + 3, n as int));
                        assert(out@ + percent_decode(s@.subrange(i + 3, n as int)) =~= prev
                            + percent_decode(rest));
                    }
                    i = i + 3;
                    escaped = true;
                }
            }
        }
        if !escaped {
            let ghost prev = out@;
            push_char(&mut out, c);
            proof {
                assert(rest[0] == c);
                if starts_with_escape(rest) {
                    assert(rest[1] == s@[i + 1] && rest[2] == s@[i + 2]);
                }
                assert(!starts_with_escape(rest));
                assert(rest.subrange(1, rest.len() as int) =~= s@.subrange(i + 1, n as int));
                assert(out@ + percent_decode(s@.subrange(i + 1, n as int)) =~= prev + percent_decode(
                    rest,
                ));
            }
            i = i + 1;
        }
    }
    assert(out@ + percent_decode(s@.subrange(n as int, n as int)) =~= out@);
    out
}

/// Whether two strings hold the same characters.
pub fn same_text(a: &str, b: &str) -> (r: bool)
    ensures
        r == (a@ == b@),
{
    let n = a.unicode_len();
    if n != b.unicode_len() {
        return false;
    }
    let mut i: usize = 0;
    while i < n
        invariant
            n == a@.len(),
            n == b@.len(),
            i <= n,
            forall|j: int| 0 <= j < i ==> a@[j] == b@[j],
        decreases n - i,
    {
        if a.get_char(i) != b.get_char(i) {
            return false;
        }
        i = i + 1;
    }
    assert(a@ =~= b@);
    true
}

proof fn lemma_two_segments_unique(p: Seq<char>, a: Seq<char>, b: Seq<char>, k: int)
    requires
        is_two_segments(p, a, b),
        1 <= k < p.len(),
        p[k] == '/',
        forall|j: int| 1 <= j < k ==> p[j] != '/',
    ensures
        a == p.subrange(1, k),
        b == p.subrange(k + 1, p.len() as int),
{
    assert(p[a.len() as int + 1] == '/');
    if k < a.len() + 1 {
        assert(p[k] == a[k - 1]);
    } else if k > a.len() + 1 {
        assert(p[a.len() as int + 1] == '/');
    }
    assert(a =~= p.subrange(1, k));
    assert(b =~= p.subrange(k + 1, p.len() as int));
}

/// Selects the route for a request with method `m` on path `path` (without
/// its query). `:device` and `:cmd` are captured with their escapes decoded
/// and are not checked further.
pub fn route(m: Method, path: &str) -> (r: Route)
    ensures
        routes_to(m, path@, r),
{
    if m == Method::Get && same_text(path, "/devices") {
        return Route::ListDevices;
    }
    let n = path.unicode_len();
    if n == 0 || path.get_char(0) != '/' {
        proof {
            assert forall|a: Seq<char>, b: Seq<char>| is_two_segments(path@, a, b) implies false by {
                assert(path@[0] == '/');
            }
        }
        return Route::NotFound;
    }
    let mut k: usize = 1;
    while k < n && path.get_char(k) != '/'
        invariant
            n == path@.len(),
            1 <= k <= n,
            forall|j: int| 1 <= j < k ==> path@[j] != '/',
        decreases n - k,
    {
        k = k + 1;
    }
    if k >= n || k == 1 {
        proof {
            assert forall|a: Seq<char>, b: Seq<char>| is_two_segments(path@, a, b) implies false by {
                let p = path@;
                assert(p[a.len() as int + 1] == '/');
                if k < a.len() + 1 {
                    assert(p[k as int] == a[k - 1]);
                }
            }
        }
        return Route::NotFound;
    }
    let mut e: usize = k + 1;
    while e < n && path.get_char(e) != '/'
        invariant
            n == path@.len(),
            k + 1 <= e <= n,
            forall|j: int| k + 1 <= j < e ==> path@[j] != '/',
        decreases n - e,
    {
        e = e + 1;
    }
    if k + 1 >= n || e < n {
        proof {
            assert forall|a: Seq<char>, b: Seq<char>| is_two_segments(path@, a, b) implies false by {
                let p = path@;
                lemma_two_segments_unique(p, a, b, k as int);
                if e < n {
                    assert(p[e as int] == b[e - k - 1]);
                }
            }
        }
        return Route::NotFound;
    }
    let raw = path.substring_char(1, k);
    let device = decode_segment(raw);
    let last = path.substring_char(k + 1, n);
    proof {
        let p = path@;
        assert(is_segment(raw@));
        assert(is_segment(last@));
        assert(p =~= seq!['/'] + raw@ + seq!['/'] + last@);
        assert(is_two_segments(p, raw@, last@));
        assert forall|a: Seq<char>, b: Seq<char>| is_two_segments(p, a, b) implies a == raw@ && b == last@ by {
            lemma_two_segments_unique(p, a, b, k as int);
        }
    }
    if same_text(last, "tracks") {
        if m == Method::Get {
            Route::DeviceTracks(device)
        } else if m == Method::Put {
            Route::ReplaceQueue(device)
        } else if m == Method::Post {
            Route::AppendQueue(device)
        } else {
            Route::NotFound
        }
    } else if m == Method::Get && same_text(last, "track") {
        Route::CurrentTrack(device)
    } else if m == Method::Put {
        Route::Transport(device, decode_segment(last))
    } else {
        Route::NotFound
    }
}

} // verus!
