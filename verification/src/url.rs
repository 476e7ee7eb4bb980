//! A minimal parser that decomposes a restricted-form HTTP URL string into
//! its structural components: host, port, path, and query string.

use vstd::prelude::*;
use vstd::string::StrSliceExecFns;
use vstd::string::StringExecFns;

verus! {

/// First index at which `c` occurs in `s`, if any.
pub open spec fn find_first(s: Seq<char>, c: char) -> Option<int>
    decreases s.len(),
{
    if s.len() == 0 {
        None
    } else if s[0] == c {
        Some(0)
    } else {
        match find_first(s.drop_first(), c) {
            Some(i) => Some(i + 1),
            None => None,
        }
    }
}

/// `find_first` returns the least index holding `c`, or `None` when `c`
/// does not occur.
pub proof fn lemma_find_first(s: Seq<char>, c: char)
    ensures
        match find_first(s, c) {
            Some(i) => 0 <= i < s.len() && s[i] == c && (forall|j: int|
                0 <= j < i ==> s[j] != c),
            None => forall|j: int| 0 <= j < s.len() ==> s[j] != c,
        },
    decreases s.len(),
{
    if s.len() == 0 {
    } else if s[0] == c {
    } else {
        lemma_find_first(s.drop_first(), c);
        assert(forall|j: int| 1 <= j < s.len() ==> s[j] == s.drop_first()[j - 1]);
    }
}

/// The scheme literal occurs in `s` at position `i`.
pub open spec fn scheme_at(s: Seq<char>, i: int) -> bool {
    &&& 0 <= i
    &&& i + 7 <= s.len()
    &&& s.subrange(i, i + 7) == "http://"@
}

/// The scheme literal occurs somewhere in `s` (a substring test, not a
/// prefix test: the accepted inputs are deliberately lax).
pub open spec fn contains_scheme(s: Seq<char>) -> bool {
    exists|i: int| scheme_at(s, i)
}

/// `s` with a leading scheme literal removed; unchanged when the scheme is
/// not a true prefix, even if it occurs elsewhere.
pub open spec fn strip_scheme(s: Seq<char>) -> Seq<char> {
    if scheme_at(s, 0) {
        s.subrange(7, s.len() as int)
    } else {
        s
    }
}

/// The leading segment of the stripped string, up to the first '/'.
pub open spec fn authority_of(raw: Seq<char>) -> Seq<char> {
    let t = strip_scheme(raw);
    match find_first(t, '/') {
        Some(i) => t.subrange(0, i),
        None => t,
    }
}

/// What follows the first '/' of the stripped string, if any '/' occurs.
pub open spec fn remainder_of(raw: Seq<char>) -> Option<Seq<char>> {
    let t = strip_scheme(raw);
    match find_first(t, '/') {
        Some(i) => Some(t.subrange(i + 1, t.len() as int)),
        None => None,
    }
}

/// The host component: the authority up to the first ':', or all of it.
pub open spec fn host_of(raw: Seq<char>) -> Seq<char> {
    let a = authority_of(raw);
    match find_first(a, ':') {
        Some(i) => a.subrange(0, i),
        None => a,
    }
}

/// The port component: the digits after the first ':' of the authority, or
/// the default "80" when the authority holds no ':'.
pub open spec fn port_of(raw: Seq<char>) -> Seq<char> {
    let a = authority_of(raw);
    match find_first(a, ':') {
        Some(i) => a.subrange(i + 1, a.len() as int),
        None => "80"@,
    }
}

/// The path component: what stands between the first '/' and the first '?',
/// the leading '/' excluded; empty when no '/' occurs.
pub open spec fn path_of(raw: Seq<char>) -> Seq<char> {
    match remainder_of(raw) {
        Some(r) => match find_first(r, '?') {
            Some(i) => r.subrange(0, i),
            None => r,
        },
        None => Seq::empty(),
    }
}

/// The query component: what follows the first '?' after the first '/';
/// empty when either delimiter is absent.
pub open spec fn searchpart_of(raw: Seq<char>) -> Seq<char> {
    match remainder_of(raw) {
        Some(r) => match find_first(r, '?') {
            Some(i) => r.subrange(i + 1, r.len() as int),
            None => Seq::empty(),
        },
        None => Seq::empty(),
    }
}

/// Any string that begins with the scheme literal contains it, so `parse`
/// accepts every input with a true `"http://"` prefix.
pub proof fn lemma_scheme_prefix_accepted(raw: Seq<char>)
    requires
        raw.len() >= 7,
        raw.subrange(0, 7) == "http://"@,
    ensures
        contains_scheme(raw),
{
    assert(scheme_at(raw, 0));
}

/// Parsing is a pure function of the raw string: two values holding equal
/// raw strings decompose into field-identical components, so parsing the
/// same string twice yields the same result. Together with `parse` keeping
/// the raw string unchanged, a reparse of a parsed value agrees with the
/// first parse.
pub proof fn lemma_parse_deterministic(raw1: Seq<char>, raw2: Seq<char>)
    requires
        raw1 == raw2,
    ensures
        contains_scheme(raw1) == contains_scheme(raw2),
        host_of(raw1) == host_of(raw2),
        port_of(raw1) == port_of(raw2),
        path_of(raw1) == path_of(raw2),
        searchpart_of(raw1) == searchpart_of(raw2),
{
}

/// Default-port law: when no ':' stands before the first '/' of the
/// scheme-stripped string (or anywhere, if no '/' occurs), the port
/// component is the default "80".
pub proof fn lemma_default_port(raw: Seq<char>)
    requires
        forall|j: int| 0 <= j < authority_of(raw).len() ==> authority_of(raw)[j] != ':',
    ensures
        port_of(raw) == "80"@,
{
    lemma_find_first(authority_of(raw), ':');
    match find_first(authority_of(raw), ':') {
        Some(i) => {
            assert(authority_of(raw)[i] != ':');
        },
        None => {},
    }
}

/// A restricted-form HTTP URL, held as the raw string together with the
/// components that `parse` extracts from it.
#[derive(Debug, Clone, PartialEq)]
pub struct Url {
    url: String,
    host: String,
    port: String,
    path: String,
    searchpart: String,
}

/// The mathematical value of a `Url`: each field as a character sequence.
pub struct UrlView {
    pub url: Seq<char>,
    pub host: Seq<char>,
    pub port: Seq<char>,
    pub path: Seq<char>,
    pub searchpart: Seq<char>,
}

impl View for Url {
    type V = UrlView;

    closed spec fn view(&self) -> UrlView {
        UrlView {
            url: self.url@,
            host: self.host@,
            port: self.port@,
            path: self.path@,
            searchpart: self.searchpart@,
        }
    }
}

impl Url {
    /// Constructs the unparsed shell: only the raw string is held, every
    /// derived component is empty until `parse` fills it.
    pub fn new(url: String) -> (r: Self)
        ensures
            r@.url == url@,
            r@.host == Seq::<char>::empty(),
            r@.port == Seq::<char>::empty(),
            r@.path == Seq::<char>::empty(),
            r@.searchpart == Seq::<char>::empty(),
    {
        Self {
            url,
            host: String::new(),
            port: String::new(),
            path: String::new(),
            searchpart: String::new(),
        }
    }

    /// The host component.
    pub fn host(&self) -> (r: String)
        ensures
            r@ == self@.host,
    {
        self.host.clone()
    }

    /// The port component.
    pub fn port(&self) -> (r: String)
        ensures
            r@ == self@.port,
    {
        self.port.clone()
    }

    /// The path component.
    pub fn path(&self) -> (r: String)
        ensures
            r@ == self@.path,
    {
        self.path.clone()
    }

    /// The query component.
    pub fn searchpart(&self) -> (r: String)
        ensures
            r@ == self@.searchpart,
    {
        self.searchpart.clone()
    }

    /// Extracts the host component of the raw string.
    fn extract_host(&self) -> (r: String)
        ensures
            r@ == host_of(self@.url),
    {
        let stripped = strip_scheme_str(self.url.as_str());
        let authority = match find_char_str(stripped, '/') {
            Some(i) => {
                proof {
                    lemma_find_first(stripped@, '/');
                }
                stripped.substring_char(0, i)
            },
            None => stripped,
        };
        match find_char_str(authority, ':') {
            Some(i) => {
                proof {
                    lemma_find_first(authority@, ':');
                }
                String::from_str(authority.substring_char(0, i))
            },
            None => String::from_str(authority),
        }
    }

    /// Extracts the port component of the raw string.
    fn extract_port(&self) -> (r: String)
        ensures
            r@ == port_of(self@.url),
    {
        let stripped = strip_scheme_str(self.url.as_str());
        let authority = match find_char_str(stripped, '/') {
            Some(i) => {
                proof {
                    lemma_find_first(stripped@, '/');
                }
                stripped.substring_char(0, i)
            },
            None => stripped,
        };
        match find_char_str(authority, ':') {
            Some(i) => {
                proof {
                    lemma_find_first(authority@, ':');
                }
                let m = authority.unicode_len();
                String::from_str(authority.substring_char(i + 1, m))
            },
            None => String::from_str("80"),
        }
    }

    /// Extracts the path component of the raw string.
    fn extract_path(&self) -> (r: String)
        ensures
            r@ == path_of(self@.url),
    {
        let stripped = strip_scheme_str(self.url.as_str());
        match find_char_str(stripped, '/') {
            Some(i) => {
                proof {
                    lemma_find_first(stripped@, '/');
                }
                let m = stripped.unicode_len();
                let remainder = stripped.substring_char(i + 1, m);
                match find_char_str(remainder, '?') {
                    Some(k) => {
                        proof {
                            lemma_find_first(remainder@, '?');
                        }
                        String::from_str(remainder.substring_char(0, k))
                    },
                    None => String::from_str(remainder),
                }
            },
            None => String::new(),
        }
    }

    /// Extracts the query component of the raw string.
    fn extract_searchpart(&self) -> (r: String)
        ensures
            r@ == searchpart_of(self@.url),
    {
        let stripped = strip_scheme_str(self.url.as_str());
        match find_char_str(stripped, '/') {
            Some(i) => {
                proof {
                    lemma_find_first(stripped@, '/');
                }
                let m = stripped.unicode_len();
                let remainder = stripped.substring_char(i + 1, m);
                match find_char_str(remainder, '?') {
                    Some(k) => {
                        proof {
                            lemma_find_first(remainder@, '?');
                        }
                        let w = remainder.unicode_len();
                        String::from_str(remainder.substring_char(k + 1, w))
                    },
                    None => String::new(),
                }
            },
            None => String::new(),
        }
    }

    /// Decomposes the raw string into host, port, path and query, fills the
    /// receiver's fields with them, and returns a copy of the populated
    /// value; fails exactly when the raw string holds no scheme literal.
    pub fn parse(&mut self) -> (res: Result<Url, String>)
        ensures
            final(self)@.url == old(self)@.url,
            contains_scheme(old(self)@.url) ==> {
                &&& final(self)@.host == host_of(old(self)@.url)
                &&& final(self)@.port == port_of(old(self)@.url)
                &&& final(self)@.path == path_of(old(self)@.url)
                &&& final(self)@.searchpart == searchpart_of(old(self)@.url)
                &&& res matches Ok(u) && u@ == final(self)@
            },
            !contains_scheme(old(self)@.url) ==> {
                &&& final(self)@ == old(self)@
                &&& res matches Err(e) && e@ == "Only HTTP scheme is supported"@
            },
    {
        if !self.is_http() {
            return Err(String::from_str("Only HTTP scheme is supported"));
        }
        self.host = self.extract_host();
        self.port = self.extract_port();
        self.path = self.extract_path();
        self.searchpart = self.extract_searchpart();
        Ok(Url {
            url: self.url.clone(),
            host: self.host.clone(),
            port: self.port.clone(),
            path: self.path.clone(),
            searchpart: self.searchpart.clone(),
        })
    }

    /// Whether the raw string holds the scheme literal anywhere.
    pub fn is_http(&self) -> (r: bool)
        ensures
            r == contains_scheme(self@.url),
    {
        let s: &str = self.url.as_str();
        let n = s.unicode_len();
        if n < 7 {
            proof {
                assert(forall|j: int| !scheme_at(s@, j));
            }
            return false;
        }
        let mut i: usize = 0;
        while i <= n - 7
            invariant
                s@ == self@.url,
                n == s@.len(),
                7 <= n,
                i <= n - 6,
                forall|j: int| 0 <= j < i ==> !scheme_at(s@, j),
            decreases n - i,
        {
            if matches_scheme_at(s, i) {
                return true;
            }
            i += 1;
        }
        proof {
            assert forall|j: int| !scheme_at(s@, j) by {
                if 0 <= j && j + 7 <= n {
                    assert(j < i);
                }
            }
        }
        false
    }
}

/// First index of `c` in `s`, computed by a left-to-right scan.
fn find_char_str(s: &str, c: char) -> (r: Option<usize>)
    ensures
        match r {
            Some(i) => find_first(s@, c) == Some(i as int),
            None => find_first(s@, c) == None::<int>,
        },
{
    let n = s.unicode_len();
    let mut i: usize = 0;
    while i < n
        invariant
            n == s@.len(),
            i <= n,
            forall|j: int| 0 <= j < i ==> s@[j] != c,
        decreases n - i,
    {
        if s.get_char(i) == c {
            proof {
                lemma_find_first(s@, c);
                match find_first(s@, c) {
                    Some(k) => {
                        if k < i as int {
                            assert(s@[k] != c);
                        }
                        if k > i as int {
                            assert(s@[i as int] != c);
                        }
                    },
                    None => {
                        assert(s@[i as int] != c);
                    },
                }
            }
            return Some(i);
        }
        i += 1;
    }
    proof {
        lemma_find_first(s@, c);
        match find_first(s@, c) {
            Some(k) => {
                assert(s@[k] != c);
            },
            None => {},
        }
    }
    None
}

/// `s` with a leading scheme literal removed, as `strip_scheme` says.
fn strip_scheme_str(s: &str) -> (r: &str)
    ensures
        r@ == strip_scheme(s@),
{
    let n = s.unicode_len();
    if n >= 7 && matches_scheme_at(s, 0) {
        s.substring_char(7, n)
    } else {
        s
    }
}

/// Whether the seven characters of `s` starting at `i` spell the scheme.
fn matches_scheme_at(s: &str, i: usize) -> (r: bool)
    requires
        i + 7 <= s@.len(),
        s@.len() <= usize::MAX,
    ensures
        r == scheme_at(s@, i as int),
{
    let r = s.get_char(i) == 'h' && s.get_char(i + 1) == 't' && s.get_char(i + 2) == 't'
        && s.get_char(i + 3) == 'p' && s.get_char(i + 4) == ':' && s.get_char(i + 5) == '/'
        && s.get_char(i + 6) == '/';
    proof {
        reveal_strlit("http://");
        let ii = i as int;
        let sub = s@.subrange(ii, ii + 7);
        if r {
            assert(sub =~= "http://"@);
        } else {
            if sub == "http://"@ {
                assert(s@[ii + 0] == sub[0]);
                assert(s@[ii + 1] == sub[1]);
                assert(s@[ii + 2] == sub[2]);
                assert(s@[ii + 3] == sub[3]);
                assert(s@[ii + 4] == sub[4]);
                assert(s@[ii + 5] == sub[5]);
                assert(s@[ii + 6] == sub[6]);
            }
        }
    }
    r
}

} // verus!
