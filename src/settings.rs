use vstd::prelude::*;
use vstd::std_specs::iter::IteratorSpec;

verus! {

/// Why a connection descriptor was refused.
#[derive(Clone, Copy, Debug, PartialEq, Eq, Structural)]
pub enum LocalSettingsParsingError {
    /// The descriptor does not begin with the local-connection prefix.
    InvalidSchema,
    /// No `.?` separates the hostname from the query.
    InvalidUrl,
    /// A query entry has no `=`.
    MalformedParameter,
    /// The `port` value is not an unsigned 16-bit decimal number.
    InvalidPort,
    MissingUser,
    MissingPassword,
    MissingPort,
}

impl LocalSettingsParsingError {
    /// A short human-readable description.
    pub fn message(&self) -> String {
        let s: &str = match self {
            LocalSettingsParsingError::InvalidSchema => "Invalid schema",
            LocalSettingsParsingError::InvalidUrl => "Invalid url",
            LocalSettingsParsingError::MalformedParameter => "Invalid parameter",
            LocalSettingsParsingError::InvalidPort => "Invalid port",
            LocalSettingsParsingError::MissingUser => "Missing user",
            LocalSettingsParsingError::MissingPassword => "Missing passwd",
            LocalSettingsParsingError::MissingPort => "Missing port",
        };
        s.to_owned()
    }
}

/// The prefix that names a local connection.
pub open spec fn schema_start() -> Seq<char> {
    seq!['b', 'a', 'm', 'b', 'u', ':', '/', '/', '/', 'l', 'o', 'c', 'a', 'l', '/']
}

pub open spec fn key_user() -> Seq<char> {
    seq!['u', 's', 'e', 'r']
}

pub open spec fn key_passwd() -> Seq<char> {
    seq!['p', 'a', 's', 's', 'w', 'd']
}

pub open spec fn key_port() -> Seq<char> {
    seq!['p', 'o', 'r', 't']
}

pub open spec fn key_device() -> Seq<char> {
    seq!['d', 'e', 'v', 'i', 'c', 'e']
}

pub open spec fn key_net_ver() -> Seq<char> {
    seq!['n', 'e', 't', '_', 'v', 'e', 'r']
}

pub open spec fn key_dev_ver() -> Seq<char> {
    seq!['d', 'e', 'v', '_', 'v', 'e', 'r']
}

pub open spec fn key_cli_id() -> Seq<char> {
    seq!['c', 'l', 'i', '_', 'i', 'd']
}

pub open spec fn key_cli_ver() -> Seq<char> {
    seq!['c', 'l', 'i', '_', 'v', 'e', 'r']
}

/// The first index at or after `i` that holds `c`, or the length if none does.
pub open spec fn index_from(s: Seq<char>, c: char, i: int) -> int
    decreases s.len() - i,
{
    if i < 0 || i >= s.len() {
        s.len() as int
    } else if s[i] == c {
        i
    } else {
        index_from(s, c, i + 1)
    }
}

/// Whether the two-character separator `.?` starts at `i`.
pub open spec fn is_query_sep(s: Seq<char>, i: int) -> bool {
    0 <= i && i + 1 < s.len() && s[i] == '.' && s[i + 1] == '?'
}

/// The first index at or after `i` where `.?` starts, or the length if none.
pub open spec fn sep_from(s: Seq<char>, i: int) -> int
    decreases s.len() - i,
{
    if i < 0 || i + 1 >= s.len() {
        s.len() as int
    } else if is_query_sep(s, i) {
        i
    } else {
        sep_from(s, i + 1)
    }
}

pub proof fn lemma_index_from_bounds(s: Seq<char>, c: char, i: int)
    requires
        0 <= i <= s.len(),
    ensures
        i <= index_from(s, c, i) <= s.len(),
        index_from(s, c, i) < s.len() ==> s[index_from(s, c, i)] == c,
        forall|j: int| i <= j < index_from(s, c, i) ==> s[j] != c,
    decreases s.len() - i,
{
    if i < s.len() && s[i] != c {
        lemma_index_from_bounds(s, c, i + 1);
    }
}

pub proof fn lemma_sep_from_bounds(s: Seq<char>, i: int)
    requires
        0 <= i <= s.len(),
    ensures
        i <= sep_from(s, i) <= s.len(),
        sep_from(s, i) < s.len() ==> is_query_sep(s, sep_from(s, i)),
        forall|j: int| i <= j < sep_from(s, i) ==> !is_query_sep(s, j),
    decreases s.len() - i,
{
    if i + 1 < s.len() && !is_query_sep(s, i) {
        lemma_sep_from_bounds(s, i + 1);
    }
}

/// Whether every character is a decimal digit.
pub open spec fn all_digits(s: Seq<char>) -> bool {
    forall|i: int| 0 <= i < s.len() ==> '0' <= #[trigger] s[i] <= '9'
}

/// The number that a string of decimal digits writes.
pub open spec fn digits_value(s: Seq<char>) -> int
    decreases s.len(),
{
    if s.len() == 0 {
        0
    } else {
        digits_value(s.drop_last()) * 10 + (s.last() as int - '0' as int)
    }
}

/// An unsigned 16-bit decimal number: an optional `+`, then at least one
/// digit, of value at most 65535.
pub open spec fn port_value(s: Seq<char>) -> Option<u16> {
    let d = if s.len() > 0 && s[0] == '+' {
        s.drop_first()
    } else {
        s
    };
    if d.len() > 0 && all_digits(d) && digits_value(d) <= 65535 {
        Some(digits_value(d) as u16)
    } else {
        None
    }
}

/// What the query has set so far.
pub struct QueryFields {
    pub user: Option<Seq<char>>,
    pub passwd: Option<Seq<char>>,
    pub port: Option<u16>,
    pub device: Option<Seq<char>>,
    pub net_ver: Option<Seq<char>>,
    pub dev_ver: Option<Seq<char>>,
    pub cli_id: Option<Seq<char>>,
    pub cli_ver: Option<Seq<char>>,
}

pub open spec fn no_fields() -> QueryFields {
    QueryFields {
        user: None,
        passwd: None,
        port: None,
        device: None,
        net_ver: None,
        dev_ver: None,
        cli_id: None,
        cli_ver: None,
    }
}

/// The effect of one `key=value` entry. The value is everything after the
/// first `=`; a later entry for the same key wins; an unknown key changes
/// nothing.
pub open spec fn apply_entry(acc: QueryFields, e: Seq<char>) -> Result<
    QueryFields,
    LocalSettingsParsingError,
> {
    let eq = index_from(e, '=', 0);
    if eq >= e.len() {
        Err(LocalSettingsParsingError::MalformedParameter)
    } else {
        let key = e.take(eq);
        let val = e.skip(eq + 1);
        if key == key_user() {
            Ok(QueryFields { user: Some(val), ..acc })
        } else if key == key_passwd() {
            Ok(QueryFields { passwd: Some(val), ..acc })
        } else if key == key_device() {
            Ok(QueryFields { device: Some(val), ..acc })
        } else if key == key_net_ver() {
            Ok(QueryFields { net_ver: Some(val), ..acc })
        } else if key == key_dev_ver() {
            Ok(QueryFields { dev_ver: Some(val), ..acc })
        } else if key == key_cli_id() {
            Ok(QueryFields { cli_id: Some(val), ..acc })
        } else if key == key_cli_ver() {
            Ok(QueryFields { cli_ver: Some(val), ..acc })
        } else if key == key_port() {
            match port_value(val) {
                Some(p) => Ok(QueryFields { port: Some(p), ..acc }),
                None => Err(LocalSettingsParsingError::InvalidPort),
            }
        } else {
            Ok(acc)
        }
    }
}

/// The entries of the query from `pos` on, split at each `&`, applied in order;
/// the first failing entry decides the error.
pub open spec fn apply_entries(q: Seq<char>, pos: int, acc: QueryFields) -> Result<
    QueryFields,
    LocalSettingsParsingError,
>
    decreases q.len() + 1 - pos,
    via apply_entries_decreases
{
    if pos < 0 || pos > q.len() {
        Ok(acc)
    } else {
        let end = index_from(q, '&', pos);
        match apply_entry(acc, q.subrange(pos, end)) {
            Err(e) => Err(e),
            Ok(next) => if end >= q.len() {
                Ok(next)
            } else {
                apply_entries(q, end + 1, next)
            },
        }
    }
}

#[via_fn]
proof fn apply_entries_decreases(q: Seq<char>, pos: int, acc: QueryFields) {
    if 0 <= pos <= q.len() {
        lemma_index_from_bounds(q, '&', pos);
    }
}

/// A parsed descriptor, as values.
pub struct SettingsView {
    pub hostname: Seq<char>,
    pub port: u16,
    pub username: Seq<char>,
    pub password: Seq<char>,
    pub serial: Option<Seq<char>>,
    pub net_ver: Option<Seq<char>>,
    pub dev_ver: Option<Seq<char>>,
    pub cli_id: Option<Seq<char>>,
    pub cli_ver: Option<Seq<char>>,
}

/// What a descriptor means: the prefix, a hostname up to the first `.?`, then
/// the query; `user`, `passwd` and `port` must all be set.
pub open spec fn parse_descriptor(url: Seq<char>) -> Result<SettingsView, LocalSettingsParsingError> {
    let n = schema_start().len();
    if url.len() < n || url.take(n as int) != schema_start() {
        Err(LocalSettingsParsingError::InvalidSchema)
    } else {
        let part = url.skip(n as int);
        let sep = sep_from(part, 0);
        if sep >= part.len() {
            Err(LocalSettingsParsingError::InvalidUrl)
        } else {
            match apply_entries(part.skip(sep + 2), 0, no_fields()) {
                Err(e) => Err(e),
                Ok(f) => if f.user is None {
                    Err(LocalSettingsParsingError::MissingUser)
                } else if f.passwd is None {
                    Err(LocalSettingsParsingError::MissingPassword)
                } else if f.port is None {
                    Err(LocalSettingsParsingError::MissingPort)
                } else {
                    Ok(
                        SettingsView {
                            hostname: part.take(sep),
                            port: f.port->0,
                            username: f.user->0,
                            password: f.passwd->0,
                            serial: f.device,
                            net_ver: f.net_ver,
                            dev_ver: f.dev_ver,
                            cli_id: f.cli_id,
                            cli_ver: f.cli_ver,
                        },
                    )
                },
            }
        }
    }
}

/// The characters of a string, in order.
fn chars_of(s: &str) -> (r: Vec<char>)
    ensures
        r@ == s@,
{
    broadcast use vstd::string::axiom_spec_iter, vstd::string::next_postcondition;

    let mut it = s.chars();
    let mut out: Vec<char> = Vec::new();
    loop
        invariant
            it.obeys_prophetic_iter_laws(),
            it.decrease() is Some,
            out@ + it.remaining() == s@,
        ensures
            out@ == s@,
        decreases it.decrease()->0,
    {
        match it.next() {
            Some(c) => {
                out.push(c);
                assert(out@ + it.remaining() =~= s@);
            },
            None => {
                assert(out@ =~= s@);
                break;
            },
        }
    }
    out
}

/// Relies on String::push: appends one character.
#[verifier::external_body]
fn push_char(s: &mut String, c: char)
    ensures
        final(s)@ == old(s)@.push(c),
{
    s.push(c)
}

fn string_of(v: &Vec<char>, lo: usize, hi: usize) -> (r: String)
    requires
        lo <= hi <= v@.len(),
    ensures
        r@ == v@.subrange(lo as int, hi as int),
{
    let mut out = String::new();
    let mut i = lo;
    while i < hi
        invariant
            lo <= i <= hi <= v@.len(),
            out@ == v@.subrange(lo as int, i as int),
        decreases hi - i,
    {
        push_char(&mut out, v[i]);
        i = i + 1;
        assert(out@ =~= v@.subrange(lo as int, i as int));
    }
    out
}

fn chars_between(v: &Vec<char>, lo: usize, hi: usize) -> (r: Vec<char>)
    requires
        lo <= hi <= v@.len(),
    ensures
        r@ == v@.subrange(lo as int, hi as int),
{
    let mut out: Vec<char> = Vec::new();
    let mut i = lo;
    while i < hi
        invariant
            lo <= i <= hi <= v@.len(),
            out@ == v@.subrange(lo as int, i as int),
        decreases hi - i,
    {
        out.push(v[i]);
        i = i + 1;
        assert(out@ =~= v@.subrange(lo as int, i as int));
    }
    out
}

fn find_char(v: &Vec<char>, c: char, from: usize) -> (r: usize)
    requires
        from <= v@.len(),
    ensures
        r as int == index_from(v@, c, from as int),
{
    let mut i = from;
    while i < v.len() && v[i] != c
        invariant
            from <= i <= v@.len(),
            index_from(v@, c, from as int) == index_from(v@, c, i as int),
        decreases v@.len() - i,
    {
        i = i + 1;
    }
    i
}

fn find_query_sep(v: &Vec<char>) -> (r: usize)
    ensures
        r as int == sep_from(v@, 0),
{
    let mut i: usize = 0;
    while v.len() - i > 1 && !(v[i] == '.' && v[i + 1] == '?')
        invariant
            i <= v@.len(),
            sep_from(v@, 0) == sep_from(v@, i as int),
        decreases v@.len() - i,
    {
        i = i + 1;
    }
    if v.len() - i <= 1 {
        v.len()
    } else {
        i
    }
}

/// Whether the first `len` characters of `v` are exactly `name`.
fn starts_with_exactly(v: &Vec<char>, len: usize, name: &[char]) -> (r: bool)
    requires
        len <= v@.len(),
    ensures
        r == (v@.take(len as int) == name@),
{
    if len != name.len() {
        return false;
    }
    let mut i: usize = 0;
    while i < len
        invariant
            len == name@.len(),
            len <= v@.len(),
            i <= len,
            forall|j: int| 0 <= j < i ==> v@[j] == name@[j],
        decreases len - i,
    {
        if v[i] != name[i] {
            assert(v@.take(len as int)[i as int] != name@[i as int]);
            return false;
        }
        i = i + 1;
    }
    assert(v@.take(len as int) =~= name@);
    true
}

fn parse_port(s: &Vec<char>, from: usize) -> (r: Option<u16>)
    requires
        from <= s@.len(),
    ensures
        r == port_value(s@.skip(from as int)),
{
    let ghost t = s@.skip(from as int);
    let mut i = from;
    if i < s.len() && s[i] == '+' {
        i = i + 1;
    }
    let ghost d = s@.skip(i as int);
    assert(d == if t.len() > 0 && t[0] == '+' { t.drop_first() } else { t });
    let start = i;
    if start >= s.len() {
        return None;
    }
    let mut acc: u32 = 0;
    while i < s.len()
        invariant
            start <= i <= s@.len(),
            start < s@.len(),
            d == s@.skip(start as int),
            t == s@.skip(from as int),
            d == if t.len() > 0 && t[0] == '+' { t.drop_first() } else { t },
            acc <= 65536,
            all_digits(s@.subrange(start as int, i as int)),
            acc as int == if digits_value(s@.subrange(start as int, i as int)) < 65536 {
                digits_value(s@.subrange(start as int, i as int))
            } else {
                65536
            },
        decreases s@.len() - i,
    {
        let c = s[i];
        if !('0' <= c && c <= '9') {
            assert(d[i - start] == c);
            assert(!all_digits(d));
            assert(port_value(t) is None);
            return None;
        }
        let ghost prev = s@.subrange(start as int, i as int);
        let digit = (c as u32) - ('0' as u32);
        let next: u32 = acc * 10 + digit;
        acc = if next > 65536 { 65536 } else { next };
        i = i + 1;
        let ghost cur = s@.subrange(start as int, i as int);
        assert(cur.drop_last() =~= prev);
        assert(digits_value(prev) >= 0) by {
            lemma_digits_value_nonneg(prev);
        }
        assert(all_digits(cur));
        assert(acc as int == if digits_value(cur) < 65536 { digits_value(cur) } else { 65536 })
            by (nonlinear_arith)
            requires
                digits_value(cur) == digits_value(prev) * 10 + digit,
                digits_value(prev) >= 0,
                digit <= 9,
                next == (if digits_value(prev) < 65536 { digits_value(prev) } else { 65536 }) * 10 + digit,
                acc == if next > 65536 { 65536 } else { next },
        ;
    }
    assert(s@.subrange(start as int, i as int) =~= d);
    if acc <= 65535 {
        Some(acc as u16)
    } else {
        None
    }
}

proof fn lemma_digits_value_nonneg(s: Seq<char>)
    requires
        all_digits(s),
    ensures
        digits_value(s) >= 0,
    decreases s.len(),
{
    if s.len() > 0 {
        assert(all_digits(s.drop_last()));
        lemma_digits_value_nonneg(s.drop_last());
    }
}

pub open spec fn opt_view(o: Option<String>) -> Option<Seq<char>> {
    match o {
        Some(s) => Some(s@),
        None => None,
    }
}

struct QueryValues {
    user: Option<String>,
    passwd: Option<String>,
    port: Option<u16>,
    device: Option<String>,
    net_ver: Option<String>,
    dev_ver: Option<String>,
    cli_id: Option<String>,
    cli_ver: Option<String>,
}

impl View for QueryValues {
    type V = QueryFields;

    closed spec fn view(&self) -> QueryFields {
        QueryFields {
            user: opt_view(self.user),
            passwd: opt_view(self.passwd),
            port: self.port,
            device: opt_view(self.device),
            net_ver: opt_view(self.net_ver),
            dev_ver: opt_view(self.dev_ver),
            cli_id: opt_view(self.cli_id),
            cli_ver: opt_view(self.cli_ver),
        }
    }
}

fn apply_entry_to(acc: &mut QueryValues, e: &Vec<char>) -> (r: Result<(), LocalSettingsParsingError>)
    ensures
        apply_entry(old(acc)@, e@) == match r {
            Ok(_) => Ok(final(acc)@),
            Err(x) => Err(x),
        },
{
    let eq = find_char(e, '=', 0);
    proof {
        lemma_index_from_bounds(e@, '=', 0);
    }
    if eq >= e.len() {
        return Err(LocalSettingsParsingError::MalformedParameter);
    }
    let k_user: Vec<char> = vec!['u', 's', 'e', 'r'];
    let k_passwd: Vec<char> = vec!['p', 'a', 's', 's', 'w', 'd'];
    let k_port: Vec<char> = vec!['p', 'o', 'r', 't'];
    let k_device: Vec<char> = vec!['d', 'e', 'v', 'i', 'c', 'e'];
    let k_net_ver: Vec<char> = vec!['n', 'e', 't', '_', 'v', 'e', 'r'];
    let k_dev_ver: Vec<char> = vec!['d', 'e', 'v', '_', 'v', 'e', 'r'];
    let k_cli_id: Vec<char> = vec!['c', 'l', 'i', '_', 'i', 'd'];
    let k_cli_ver: Vec<char> = vec!['c', 'l', 'i', '_', 'v', 'e', 'r'];
    assert(k_user@ =~= key_user());
    assert(k_passwd@ =~= key_passwd());
    assert(k_port@ =~= key_port());
    assert(k_device@ =~= key_device());
    assert(k_net_ver@ =~= key_net_ver());
    assert(k_dev_ver@ =~= key_dev_ver());
    assert(k_cli_id@ =~= key_cli_id());
    assert(k_cli_ver@ =~= key_cli_ver());
    let ghost val = e@.skip(eq + 1);
    assert(e@.subrange(eq + 1, e@.len() as int) =~= val);
    if starts_with_exactly(e, eq, k_user.as_slice()) {
        acc.user = Some(string_of(e, eq + 1, e.len()));
    } else if starts_with_exactly(e, eq, k_passwd.as_slice()) {
        acc.passwd = Some(string_of(e, eq + 1, e.len()));
    } else if starts_with_exactly(e, eq, k_device.as_slice()) {
        acc.device = Some(string_of(e, eq + 1, e.len()));
    } else if starts_with_exactly(e, eq, k_net_ver.as_slice()) {
        acc.net_ver = Some(string_of(e, eq + 1, e.len()));
    } else if starts_with_exactly(e, eq, k_dev_ver.as_slice()) {
        acc.dev_ver = Some(string_of(e, eq + 1, e.len()));
    } else if starts_with_exactly(e, eq, k_cli_id.as_slice()) {
        acc.cli_id = Some(string_of(e, eq + 1, e.len()));
    } else if starts_with_exactly(e, eq, k_cli_ver.as_slice()) {
        acc.cli_ver = Some(string_of(e, eq + 1, e.len()));
    } else if starts_with_exactly(e, eq, k_port.as_slice()) {
        match parse_port(e, eq + 1) {
            Some(p) => {
                acc.port = Some(p);
            },
            None => {
                return Err(LocalSettingsParsingError::InvalidPort);
            },
        }
    }
    Ok(())
}

/// The parameters of one local connection, as a descriptor gives them.
#[derive(Clone, Debug)]
pub struct LocalSettings {
    pub hostname: String,
    pub port: u16,
    pub username: String,
    pub password: String,
    pub serial: Option<String>,
    pub net_ver: Option<String>,
    pub dev_ver: Option<String>,
    pub cli_id: Option<String>,
    pub cli_ver: Option<String>,
}

impl View for LocalSettings {
    type V = SettingsView;

    open spec fn view(&self) -> SettingsView {
        SettingsView {
            hostname: self.hostname@,
            port: self.port,
            username: self.username@,
            password: self.password@,
            serial: opt_view(self.serial),
            net_ver: opt_view(self.net_ver),
            dev_ver: opt_view(self.dev_ver),
            cli_id: opt_view(self.cli_id),
            cli_ver: opt_view(self.cli_ver),
        }
    }
}

impl LocalSettings {
    /// Parses a descriptor
    /// `bambu:///local/<hostname>.?<key>=<value>&<key>=<value>...`.
    /// Values are taken verbatim; unknown keys are ignored; `user`,
    /// `passwd` and `port` are required.
    pub fn from_url(url: &str) -> (r: Result<LocalSettings, LocalSettingsParsingError>)
        ensures
            parse_descriptor(url@) == match r {
                Ok(s) => Ok(s@),
                Err(e) => Err(e),
            },
    {
        let cs = chars_of(url);
        let schema: Vec<char> = vec![
            'b', 'a', 'm', 'b', 'u', ':', '/', '/', '/', 'l', 'o', 'c', 'a', 'l', '/',
        ];
        assert(schema@ =~= schema_start());
        let n = schema.len();
        if cs.len() < n || !starts_with_exactly(&cs, n, schema.as_slice()) {
            return Err(LocalSettingsParsingError::InvalidSchema);
        }
        let part = chars_between(&cs, n, cs.len());
        assert(part@ =~= cs@.skip(n as int));
        let sep = find_query_sep(&part);
        proof {
            lemma_sep_from_bounds(part@, 0);
        }
        if sep >= part.len() {
            return Err(LocalSettingsParsingError::InvalidUrl);
        }
        let hostname = string_of(&part, 0, sep);
        let q = chars_between(&part, sep + 2, part.len());
        assert(q@ =~= part@.skip(sep + 2));
        assert(hostname@ =~= part@.take(sep as int));
        let mut acc = QueryValues {
            user: None,
            passwd: None,
            port: None,
            device: None,
            net_ver: None,
            dev_ver: None,
            cli_id: None,
            cli_ver: None,
        };
        assert(acc@ == no_fields());
        let mut pos: usize = 0;
        let mut done = false;
        while !done
            invariant
                pos <= q@.len(),
                cs@ == url@,
                n == schema_start().len(),
                cs@.len() >= n,
                cs@.take(n as int) == schema_start(),
                part@ == cs@.skip(n as int),
                sep as int == sep_from(part@, 0),
                sep < part@.len(),
                q@ == part@.skip(sep + 2),
                done ==> apply_entries(q@, 0, no_fields()) == Ok::<
                    QueryFields,
                    LocalSettingsParsingError,
                >(acc@),
                !done ==> apply_entries(q@, 0, no_fields()) == apply_entries(q@, pos as int, acc@),
            decreases (if done { 0 } else { q@.len() + 1 - pos }),
        {
            let end = find_char(&q, '&', pos);
            proof {
                lemma_index_from_bounds(q@, '&', pos as int);
            }
            let e = chars_between(&q, pos, end);
            let ghost before = acc@;
            let res = apply_entry_to(&mut acc, &e);
            match res {
                Err(x) => {
                    assert(apply_entries(q@, pos as int, before) == Err::<
                        QueryFields,
                        LocalSettingsParsingError,
                    >(x));
                    return Err(x);
                },
                Ok(_) => {},
            }
            if end >= q.len() {
                done = true;
            } else {
                pos = end + 1;
            }
        }
        let username = match acc.user {
            Some(u) => u,
            None => {
                return Err(LocalSettingsParsingError::MissingUser);
            },
        };
        let password = match acc.passwd {
            Some(p) => p,
            None => {
                return Err(LocalSettingsParsingError::MissingPassword);
            },
        };
        let port = match acc.port {
            Some(p) => p,
            None => {
                return Err(LocalSettingsParsingError::MissingPort);
            },
        };
        Ok(
            LocalSettings {
                hostname,
                port,
                username,
                password,
                serial: acc.device,
                net_ver: acc.net_ver,
                dev_ver: acc.dev_ver,
                cli_id: acc.cli_id,
                cli_ver: acc.cli_ver,
            },
        )
    }
}

proof fn lemma_index_from_first(s: Seq<char>, c: char, i: int, j: int)
    requires
        0 <= i <= j <= s.len(),
        forall|k: int| i <= k < j ==> s[k] != c,
        j < s.len() ==> s[j] == c,
    ensures
        index_from(s, c, i) == j,
    decreases j - i,
{
    if i < j {
        lemma_index_from_first(s, c, i + 1, j);
    }
}

proof fn lemma_sep_from_first(s: Seq<char>, i: int, j: int)
    requires
        0 <= i <= j,
        j + 1 < s.len(),
        forall|k: int| i <= k < j ==> !is_query_sep(s, k),
        is_query_sep(s, j),
    ensures
        sep_from(s, i) == j,
    decreases j - i,
{
    if i < j {
        lemma_sep_from_first(s, i + 1, j);
    }
}

/// Whether the key is one that the descriptor format gives a meaning.
pub open spec fn is_known_key(key: Seq<char>) -> bool {
    key == key_user() || key == key_passwd() || key == key_port() || key == key_device() || key
        == key_net_ver() || key == key_dev_ver() || key == key_cli_id() || key == key_cli_ver()
}

pub open spec fn has_no(s: Seq<char>, c: char) -> bool {
    forall|k: int| 0 <= k < s.len() ==> s[k] != c
}

proof fn lemma_entry_parts(key: Seq<char>, val: Seq<char>)
    requires
        has_no(key, '='),
    ensures
        index_from(key + seq!['='] + val, '=', 0) == key.len(),
        (key + seq!['='] + val).take(key.len() as int) == key,
        (key + seq!['='] + val).skip(key.len() as int + 1) == val,
{
    let e = key + seq!['='] + val;
    lemma_index_from_first(e, '=', 0, key.len() as int);
    assert(e.take(key.len() as int) =~= key);
    assert(e.skip(key.len() as int + 1) =~= val);
}

/// An entry whose key has no meaning in the format never makes parsing fail,
/// and changes nothing.
pub proof fn lemma_unknown_key_ignored(acc: QueryFields, key: Seq<char>, val: Seq<char>)
    requires
        has_no(key, '='),
        !is_known_key(key),
    ensures
        apply_entry(acc, key + seq!['='] + val) == Ok::<QueryFields, LocalSettingsParsingError>(
            acc,
        ),
{
    lemma_entry_parts(key, val);
}

/// The descriptor that names a host, a port (as written), a user and a
/// password, in the order of the usual example.
pub open spec fn descriptor_of(
    host: Seq<char>,
    port: Seq<char>,
    user: Seq<char>,
    passwd: Seq<char>,
) -> Seq<char> {
    schema_start() + host + seq!['.', '?'] + key_port() + seq!['='] + port + seq!['&'] + key_user()
        + seq!['='] + user + seq!['&'] + key_passwd() + seq!['='] + passwd
}

proof fn lemma_keys_distinct()
    ensures
        key_port() != key_user(),
        key_port() != key_passwd(),
        key_port() != key_device(),
        key_port() != key_net_ver(),
        key_port() != key_dev_ver(),
        key_port() != key_cli_id(),
        key_port() != key_cli_ver(),
        key_passwd() != key_user(),
        has_no(key_port(), '='),
        has_no(key_user(), '='),
        has_no(key_passwd(), '='),
{
    assert(key_port()[0] != key_user()[0]);
    assert(key_port()[1] != key_passwd()[1]);
    assert(key_port().len() != key_device().len());
    assert(key_port().len() != key_net_ver().len());
    assert(key_port().len() != key_dev_ver().len());
    assert(key_port().len() != key_cli_id().len());
    assert(key_port().len() != key_cli_ver().len());
    assert(key_passwd().len() != key_user().len());
}

#[verifier::rlimit(50)]
proof fn lemma_query_of_three(port: Seq<char>, user: Seq<char>, passwd: Seq<char>)
    requires
        port_value(port) is Some,
        has_no(port, '&'),
        has_no(user, '&'),
        has_no(passwd, '&'),
    ensures
        apply_entries(
            key_port() + seq!['='] + port + seq!['&'] + key_user() + seq!['='] + user + seq!['&']
                + key_passwd() + seq!['='] + passwd,
            0,
            no_fields(),
        ) == Ok::<QueryFields, LocalSettingsParsingError>(
            QueryFields {
                port: port_value(port),
                user: Some(user),
                passwd: Some(passwd),
                ..no_fields()
            },
        ),
{
    let e1 = key_port() + seq!['='] + port;
    let e2 = key_user() + seq!['='] + user;
    let e3 = key_passwd() + seq!['='] + passwd;
    let q = e1 + seq!['&'] + e2 + seq!['&'] + e3;
    assert(q =~= key_port() + seq!['='] + port + seq!['&'] + key_user() + seq!['='] + user
        + seq!['&'] + key_passwd() + seq!['='] + passwd);
    let n1 = e1.len() as int;
    let n2 = e2.len() as int;
    assert forall|k: int| 0 <= k < n1 implies q[k] != '&' by {
        assert(q[k] == e1[k]);
    }
    lemma_index_from_first(q, '&', 0, n1);
    assert(q.subrange(0, n1) =~= e1);
    assert forall|k: int| n1 + 1 <= k < n1 + 1 + n2 implies q[k] != '&' by {
        assert(q[k] == e2[k - n1 - 1]);
    }
    lemma_index_from_first(q, '&', n1 + 1, n1 + 1 + n2);
    assert(q.subrange(n1 + 1, n1 + 1 + n2) =~= e2);
    assert forall|k: int| n1 + n2 + 2 <= k < q.len() implies q[k] != '&' by {
        assert(q[k] == e3[k - n1 - n2 - 2]);
    }
    lemma_index_from_first(q, '&', n1 + n2 + 2, q.len() as int);
    assert(q.subrange(n1 + n2 + 2, q.len() as int) =~= e3);
    lemma_keys_distinct();
    lemma_entry_parts(key_port(), port);
    lemma_entry_parts(key_user(), user);
    lemma_entry_parts(key_passwd(), passwd);
    let f1 = QueryFields { port: port_value(port), ..no_fields() };
    let f2 = QueryFields { user: Some(user), ..f1 };
    let f3 = QueryFields { passwd: Some(passwd), ..f2 };
    assert(apply_entry(no_fields(), e1) == Ok::<QueryFields, LocalSettingsParsingError>(f1));
    assert(apply_entry(f1, e2) == Ok::<QueryFields, LocalSettingsParsingError>(f2));
    assert(apply_entry(f2, e3) == Ok::<QueryFields, LocalSettingsParsingError>(f3));
    assert(apply_entries(q, n1 + n2 + 2, f2) == Ok::<QueryFields, LocalSettingsParsingError>(f3));
    assert(apply_entries(q, n1 + 1, f1) == Ok::<QueryFields, LocalSettingsParsingError>(f3));
}

/// Parsing gives back each field of a descriptor exactly: the hostname, the
/// port, the user and the password, with no optional field set.
#[verifier::rlimit(50)]
pub proof fn lemma_descriptor_round_trip(
    host: Seq<char>,
    port: Seq<char>,
    user: Seq<char>,
    passwd: Seq<char>,
)
    requires
        forall|i: int| !is_query_sep(host, i),
        port_value(port) is Some,
        has_no(port, '&'),
        has_no(user, '&'),
        has_no(passwd, '&'),
    ensures
        parse_descriptor(descriptor_of(host, port, user, passwd)) == Ok::<
            SettingsView,
            LocalSettingsParsingError,
        >(
            SettingsView {
                hostname: host,
                port: port_value(port)->0,
                username: user,
                password: passwd,
                serial: None,
                net_ver: None,
                dev_ver: None,
                cli_id: None,
                cli_ver: None,
            },
        ),
{
    let q = key_port() + seq!['='] + port + seq!['&'] + key_user() + seq!['='] + user + seq!['&']
        + key_passwd() + seq!['='] + passwd;
    let url = descriptor_of(host, port, user, passwd);
    let part = host + seq!['.', '?'] + q;
    assert(url =~= schema_start() + part);
    assert(url.take(15) =~= schema_start());
    assert(url.skip(15) =~= part);
    assert forall|k: int| 0 <= k < host.len() as int implies !is_query_sep(part, k) by {
        if k + 1 < host.len() {
            assert(!is_query_sep(host, k));
        }
    }
    lemma_sep_from_first(part, 0, host.len() as int);
    assert(part.take(host.len() as int) =~= host);
    assert(part.skip(host.len() as int + 2) =~= q);
    lemma_query_of_three(port, user, passwd);
}

#[verifier::rlimit(40)]
proof fn lemma_entries_with_appended(q: Seq<char>, e: Seq<char>, pos: int, acc: QueryFields)
    requires
        0 <= pos <= q.len(),
        has_no(e, '&'),
    ensures
        apply_entries(q + seq!['&'] + e, pos, acc) == match apply_entries(q, pos, acc) {
            Ok(f) => apply_entry(f, e),
            Err(x) => Err(x),
        },
    decreases q.len() + 1 - pos,
{
    let big = q + seq!['&'] + e;
    let j = index_from(q, '&', pos);
    lemma_index_from_bounds(q, '&', pos);
    assert forall|k: int| pos <= k < j implies big[k] != '&' by {
        assert(big[k] == q[k]);
    }
    lemma_index_from_first(big, '&', pos, j);
    assert(big.subrange(pos, j) =~= q.subrange(pos, j));
    match apply_entry(acc, q.subrange(pos, j)) {
        Err(_) => {},
        Ok(next) => {
            if j >= q.len() {
                assert forall|k: int| j + 1 <= k < big.len() implies big[k] != '&' by {
                    assert(big[k] == e[k - j - 1]);
                }
                lemma_index_from_first(big, '&', j + 1, big.len() as int);
                assert(big.subrange(j + 1, big.len() as int) =~= e);
                assert(apply_entries(big, j + 1, next) == apply_entry(next, e));
            } else {
                lemma_entries_with_appended(q, e, j + 1, next);
            }
        },
    }
}

/// The query fields that a parsed descriptor stands for.
pub open spec fn fields_of(v: SettingsView) -> QueryFields {
    QueryFields {
        user: Some(v.username),
        passwd: Some(v.password),
        port: Some(v.port),
        device: v.serial,
        net_ver: v.net_ver,
        dev_ver: v.dev_ver,
        cli_id: v.cli_id,
        cli_ver: v.cli_ver,
    }
}

/// The parsed descriptor for a hostname and query fields that hold every
/// required key.
pub open spec fn settings_with(hostname: Seq<char>, f: QueryFields) -> SettingsView {
    SettingsView {
        hostname,
        port: f.port->0,
        username: f.user->0,
        password: f.passwd->0,
        serial: f.device,
        net_ver: f.net_ver,
        dev_ver: f.dev_ver,
        cli_id: f.cli_id,
        cli_ver: f.cli_ver,
    }
}

/// Appending one `&`-free entry to a descriptor that parses gives exactly
/// the parse with that entry applied last: a known key sets its field to the
/// value (the last entry for a key wins, in any order of keys), an unknown
/// key changes nothing, and a malformed entry or port is the only way to
/// fail. Applied entry by entry, this gives back every field, optional ones
/// included.
#[verifier::rlimit(40)]
pub proof fn lemma_entry_appended(url: Seq<char>, e: Seq<char>)
    requires
        parse_descriptor(url) is Ok,
        has_no(e, '&'),
    ensures
        parse_descriptor(url + seq!['&'] + e) == match apply_entry(
            fields_of(parse_descriptor(url)->Ok_0),
            e,
        ) {
            Ok(f) => Ok(settings_with(parse_descriptor(url)->Ok_0.hostname, f)),
            Err(x) => Err(x),
        },
{
    let big = url + seq!['&'] + e;
    let n = schema_start().len() as int;
    assert(big.take(n) =~= url.take(n));
    let part = url.skip(n);
    let bpart = big.skip(n);
    assert(bpart =~= part + seq!['&'] + e);
    lemma_sep_from_bounds(part, 0);
    let j = sep_from(part, 0);
    assert forall|k: int| 0 <= k < j implies !is_query_sep(bpart, k) by {
        assert(!is_query_sep(part, k));
        assert(bpart[k] == part[k]);
        assert(bpart[k + 1] == part[k + 1]);
    }
    assert(bpart[j] == part[j] && bpart[j + 1] == part[j + 1]);
    lemma_sep_from_first(bpart, 0, j);
    assert(bpart.take(j) =~= part.take(j));
    let q = part.skip(j + 2);
    assert(bpart.skip(j + 2) =~= q + seq!['&'] + e);
    lemma_entries_with_appended(q, e, 0, no_fields());
    let f0 = apply_entries(q, 0, no_fields())->Ok_0;
    assert(fields_of(parse_descriptor(url)->Ok_0) == f0);
}

/// Appending an entry whose key has no meaning in the format to a descriptor
/// that parses changes nothing in the result: unknown keys never make
/// parsing fail.
#[verifier::rlimit(40)]
pub proof fn lemma_unknown_entry_appended(url: Seq<char>, key: Seq<char>, val: Seq<char>)
    requires
        parse_descriptor(url) is Ok,
        has_no(key, '='),
        has_no(key, '&'),
        has_no(val, '&'),
        !is_known_key(key),
    ensures
        parse_descriptor(url + seq!['&'] + (key + seq!['='] + val)) == parse_descriptor(url),
{
    let e = key + seq!['='] + val;
    assert forall|k: int| 0 <= k < e.len() implies e[k] != '&' by {
        if k < key.len() {
            assert(e[k] == key[k]);
        } else if k > key.len() {
            assert(e[k] == val[k - key.len() - 1]);
        }
    }
    lemma_entry_appended(url, e);
    lemma_unknown_key_ignored(fields_of(parse_descriptor(url)->Ok_0), key, val);
}

/// Whether no entry of the query, from `pos` on, has the given key.
pub open spec fn lacks_key(q: Seq<char>, pos: int, key: Seq<char>) -> bool
    decreases q.len() + 1 - pos,
    via lacks_key_decreases
{
    if pos < 0 || pos > q.len() {
        true
    } else {
        let end = index_from(q, '&', pos);
        let e = q.subrange(pos, end);
        let eq = index_from(e, '=', 0);
        &&& (eq >= e.len() || e.take(eq) != key)
        &&& (end >= q.len() || lacks_key(q, end + 1, key))
    }
}

#[via_fn]
proof fn lacks_key_decreases(q: Seq<char>, pos: int, key: Seq<char>) {
    if 0 <= pos <= q.len() {
        lemma_index_from_bounds(q, '&', pos);
    }
}

/// The keys without which a descriptor does not parse.
pub open spec fn is_required_key(key: Seq<char>) -> bool {
    key == key_user() || key == key_passwd() || key == key_port()
}

/// Whether the fields hold a value for the given required key.
pub open spec fn sets_key(f: QueryFields, key: Seq<char>) -> bool {
    if key == key_user() {
        f.user is Some
    } else if key == key_passwd() {
        f.passwd is Some
    } else {
        f.port is Some
    }
}

proof fn lemma_entries_leave_key_unset(q: Seq<char>, pos: int, key: Seq<char>, acc: QueryFields)
    requires
        0 <= pos <= q.len(),
        is_required_key(key),
        lacks_key(q, pos, key),
        !sets_key(acc, key),
    ensures
        apply_entries(q, pos, acc) matches Ok(f) ==> !sets_key(f, key),
    decreases q.len() + 1 - pos,
{
    lemma_keys_distinct();
    let end = index_from(q, '&', pos);
    lemma_index_from_bounds(q, '&', pos);
    match apply_entry(acc, q.subrange(pos, end)) {
        Err(_) => {},
        Ok(next) => {
            assert(!sets_key(next, key));
            if end < q.len() {
                lemma_entries_leave_key_unset(q, end + 1, key, next);
            }
        },
    }
}

/// Whether the query of a descriptor has no entry with the given key.
pub open spec fn descriptor_lacks_key(url: Seq<char>, key: Seq<char>) -> bool {
    let part = url.skip(schema_start().len() as int);
    lacks_key(part.skip(sep_from(part, 0) + 2), 0, key)
}

/// A descriptor whose query has no entry for `user`, `passwd` or `port`
/// never parses: the result is an error, whatever else it holds.
pub proof fn lemma_missing_required_key(url: Seq<char>, key: Seq<char>)
    requires
        is_required_key(key),
        descriptor_lacks_key(url, key),
    ensures
        parse_descriptor(url) is Err,
{
    lemma_keys_distinct();
    let n = schema_start().len() as int;
    if url.len() >= n && url.take(n) == schema_start() {
        let part = url.skip(n);
        let sep = sep_from(part, 0);
        lemma_sep_from_bounds(part, 0);
        if sep < part.len() {
            let q = part.skip(sep + 2);
            assert(!sets_key(no_fields(), key));
            lemma_entries_leave_key_unset(q, 0, key, no_fields());
        }
    }
}

/// The entry `key=value`.
pub open spec fn entry_of(key: Seq<char>, val: Seq<char>) -> Seq<char> {
    key + seq!['='] + val
}

/// The query that joins the entries `keys[i]=vals[i]` with `&`, in order.
pub open spec fn join_query(keys: Seq<Seq<char>>, vals: Seq<Seq<char>>) -> Seq<char>
    decreases keys.len(),
{
    if keys.len() <= 1 || vals.len() != keys.len() {
        if keys.len() == 0 || vals.len() == 0 {
            Seq::empty()
        } else {
            entry_of(keys[0], vals[0])
        }
    } else {
        join_query(keys.drop_last(), vals.drop_last()) + seq!['&'] + entry_of(
            keys.last(),
            vals.last(),
        )
    }
}

/// The value that the last entry for `key` gives, if any entry has it.
pub open spec fn lookup(keys: Seq<Seq<char>>, vals: Seq<Seq<char>>, key: Seq<char>) -> Option<
    Seq<char>,
>
    decreases keys.len(),
{
    if keys.len() == 0 || vals.len() != keys.len() {
        None
    } else if keys.last() == key {
        Some(vals.last())
    } else {
        lookup(keys.drop_last(), vals.drop_last(), key)
    }
}

/// The fields that entries set, each key to the value of its last entry.
pub open spec fn fields_from(keys: Seq<Seq<char>>, vals: Seq<Seq<char>>) -> QueryFields {
    QueryFields {
        user: lookup(keys, vals, key_user()),
        passwd: lookup(keys, vals, key_passwd()),
        port: match lookup(keys, vals, key_port()) {
            Some(p) => port_value(p),
            None => None,
        },
        device: lookup(keys, vals, key_device()),
        net_ver: lookup(keys, vals, key_net_ver()),
        dev_ver: lookup(keys, vals, key_dev_ver()),
        cli_id: lookup(keys, vals, key_cli_id()),
        cli_ver: lookup(keys, vals, key_cli_ver()),
    }
}

/// Entries that a query can carry: keys without `=` or `&`, values without
/// `&`, and a valid number for each `port`.
pub open spec fn plain_entries(keys: Seq<Seq<char>>, vals: Seq<Seq<char>>) -> bool {
    &&& keys.len() == vals.len()
    &&& forall|i: int|
        0 <= i < keys.len() ==> has_no(#[trigger] keys[i], '=') && has_no(keys[i], '&')
    &&& forall|i: int| 0 <= i < vals.len() ==> has_no(#[trigger] vals[i], '&')
    &&& forall|i: int|
        0 <= i < keys.len() && #[trigger] keys[i] == key_port() ==> port_value(vals[i]) is Some
}

proof fn lemma_all_keys_distinct()
    ensures
        key_user() != key_passwd(),
        key_user() != key_port(),
        key_user() != key_device(),
        key_user() != key_net_ver(),
        key_user() != key_dev_ver(),
        key_user() != key_cli_id(),
        key_user() != key_cli_ver(),
        key_passwd() != key_port(),
        key_passwd() != key_device(),
        key_passwd() != key_net_ver(),
        key_passwd() != key_dev_ver(),
        key_passwd() != key_cli_id(),
        key_passwd() != key_cli_ver(),
        key_port() != key_device(),
        key_port() != key_net_ver(),
        key_port() != key_dev_ver(),
        key_port() != key_cli_id(),
        key_port() != key_cli_ver(),
        key_device() != key_net_ver(),
        key_device() != key_dev_ver(),
        key_device() != key_cli_id(),
        key_device() != key_cli_ver(),
        key_net_ver() != key_dev_ver(),
        key_net_ver() != key_cli_id(),
        key_net_ver() != key_cli_ver(),
        key_dev_ver() != key_cli_id(),
        key_dev_ver() != key_cli_ver(),
        key_cli_id() != key_cli_ver(),
{
    assert(key_user()[0] != key_port()[0]);
    assert(key_passwd()[0] != key_device()[0]);
    assert(key_passwd()[0] != key_cli_id()[0]);
    assert(key_device()[0] != key_cli_id()[0]);
    assert(key_net_ver()[0] != key_dev_ver()[0]);
    assert(key_net_ver()[0] != key_cli_ver()[0]);
    assert(key_dev_ver()[0] != key_cli_ver()[0]);
}

proof fn lemma_entry_has_no_amp(key: Seq<char>, val: Seq<char>)
    requires
        has_no(key, '&'),
        has_no(val, '&'),
    ensures
        has_no(entry_of(key, val), '&'),
{
    let e = entry_of(key, val);
    assert forall|k: int| 0 <= k < e.len() implies e[k] != '&' by {
        if k < key.len() {
            assert(e[k] == key[k]);
        } else if k > key.len() {
            assert(e[k] == val[k - key.len() - 1]);
        }
    }
}

#[verifier::rlimit(60)]
proof fn lemma_joined_entries(keys: Seq<Seq<char>>, vals: Seq<Seq<char>>)
    requires
        keys.len() >= 1,
        plain_entries(keys, vals),
    ensures
        apply_entries(join_query(keys, vals), 0, no_fields()) == Ok::<
            QueryFields,
            LocalSettingsParsingError,
        >(fields_from(keys, vals)),
    decreases keys.len(),
{
    lemma_all_keys_distinct();
    let n = keys.len() - 1;
    let k = keys[n];
    let v = vals[n];
    let e = entry_of(k, v);
    assert(has_no(k, '=') && has_no(k, '&') && has_no(vals[n], '&'));
    lemma_entry_has_no_amp(k, v);
    lemma_entry_parts(k, v);
    let prev = if n == 0 {
        no_fields()
    } else {
        fields_from(keys.drop_last(), vals.drop_last())
    };
    if n == 0 {
        assert(join_query(keys, vals) == e);
        lemma_index_from_first(e, '&', 0, e.len() as int);
        assert(e.subrange(0, e.len() as int) =~= e);
        assert(apply_entries(e, 0, no_fields()) == apply_entry(no_fields(), e));
        assert(keys.drop_last().len() == 0);
    } else {
        let pk = keys.drop_last();
        let pv = vals.drop_last();
        assert(plain_entries(pk, pv)) by {
            assert forall|i: int| 0 <= i < pk.len() implies has_no(#[trigger] pk[i], '=')
                && has_no(pk[i], '&') by {
                assert(pk[i] == keys[i]);
            }
            assert forall|i: int| 0 <= i < pv.len() implies has_no(#[trigger] pv[i], '&') by {
                assert(pv[i] == vals[i]);
            }
            assert forall|i: int|
                0 <= i < pk.len() && #[trigger] pk[i] == key_port() implies port_value(
                pv[i],
            ) is Some by {
                assert(pk[i] == keys[i] && pv[i] == vals[i]);
            }
        }
        lemma_joined_entries(pk, pv);
        lemma_entries_with_appended(join_query(pk, pv), e, 0, no_fields());
    }
    if k == key_port() {
        assert(port_value(v) is Some);
    }
    assert(apply_entry(prev, e) == Ok::<QueryFields, LocalSettingsParsingError>(
        fields_from(keys, vals),
    ));
}

/// Parsing gives back every field of a descriptor: the hostname, and for
/// each key the value of its last entry, whatever the order of the entries
/// and whichever optional keys they hold; unknown keys change nothing. The
/// required keys must each have an entry.
#[verifier::rlimit(60)]
pub proof fn lemma_descriptor_fields(
    host: Seq<char>,
    keys: Seq<Seq<char>>,
    vals: Seq<Seq<char>>,
)
    requires
        forall|i: int| !is_query_sep(host, i),
        keys.len() >= 1,
        plain_entries(keys, vals),
        lookup(keys, vals, key_user()) is Some,
        lookup(keys, vals, key_passwd()) is Some,
        lookup(keys, vals, key_port()) is Some,
    ensures
        parse_descriptor(schema_start() + host + seq!['.', '?'] + join_query(keys, vals)) == Ok::<
            SettingsView,
            LocalSettingsParsingError,
        >(settings_with(host, fields_from(keys, vals))),
{
    let q = join_query(keys, vals);
    let url = schema_start() + host + seq!['.', '?'] + q;
    let part = host + seq!['.', '?'] + q;
    assert(url =~= schema_start() + part);
    assert(url.take(15) =~= schema_start());
    assert(url.skip(15) =~= part);
    assert forall|k: int| 0 <= k < host.len() as int implies !is_query_sep(part, k) by {
        if k + 1 < host.len() {
            assert(!is_query_sep(host, k));
        }
    }
    lemma_sep_from_first(part, 0, host.len() as int);
    assert(part.take(host.len() as int) =~= host);
    assert(part.skip(host.len() as int + 2) =~= q);
    lemma_joined_entries(keys, vals);
    lemma_lookup_port_valid(keys, vals);
}

proof fn lemma_lookup_port_valid(keys: Seq<Seq<char>>, vals: Seq<Seq<char>>)
    requires
        plain_entries(keys, vals),
    ensures
        lookup(keys, vals, key_port()) matches Some(p) ==> port_value(p) is Some,
    decreases keys.len(),
{
    if keys.len() > 0 {
        let n = keys.len() - 1;
        if keys[n] != key_port() {
            let pk = keys.drop_last();
            let pv = vals.drop_last();
            assert(plain_entries(pk, pv)) by {
                assert forall|i: int| 0 <= i < pk.len() implies has_no(#[trigger] pk[i], '=')
                    && has_no(pk[i], '&') by {
                    assert(pk[i] == keys[i]);
                }
                assert forall|i: int| 0 <= i < pv.len() implies has_no(#[trigger] pv[i], '&') by {
                    assert(pv[i] == vals[i]);
                }
                assert forall|i: int|
                    0 <= i < pk.len() && #[trigger] pk[i] == key_port() implies port_value(
                    pv[i],
                ) is Some by {
                    assert(pk[i] == keys[i] && pv[i] == vals[i]);
                }
            }
            lemma_lookup_port_valid(pk, pv);
        }
    }
}

} // verus!
