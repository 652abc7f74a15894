use vstd::prelude::*;
use crate::domain::error::SyswhyError;
use crate::domain::number::{decimal, is_digit, lemma_decimal_reads_back, parse_unsigned, parse_unsigned_max, push_decimal};
use crate::domain::scan::{find_from, join, join_strings, lemma_find_from_bounds, occurs_at, split_once, split_once_text, starts_with, starts_with_text, views};
use crate::domain::text::{owned, text_eq};

verus! {

#[derive(Debug, Clone, Copy, PartialEq, Eq, Structural)]
pub enum Protocol {
    Tcp,
    Udp,
}

/// The name of a protocol.
pub open spec fn protocol_name(p: Protocol) -> Seq<char> {
    match p {
        Protocol::Tcp => "tcp"@,
        Protocol::Udp => "udp"@,
    }
}

impl Protocol {
    pub fn as_str(&self) -> (r: &'static str)
        ensures
            r@ == protocol_name(*self),
    {
        match self {
            Self::Tcp => "tcp",
            Self::Udp => "udp",
        }
    }
}

/// The mathematical value of a query.
pub enum QueryView {
    Auto(Seq<char>),
    File(Seq<char>),
    Package(Seq<char>),
    Process(u32),
    Service(Seq<char>),
    Port { number: u16, protocol: Option<Protocol> },
    StorePath(Seq<char>),
}

/// What the user asked about. Paths are kept as the text the user gave.
#[derive(Debug, Clone)]
pub enum Query {
    Auto(String),
    File(String),
    Package(String),
    Process(u32),
    Service(String),
    Port { number: u16, protocol: Option<Protocol> },
    StorePath(String),
}

impl View for Query {
    type V = QueryView;

    open spec fn view(&self) -> QueryView {
        match self {
            Query::Auto(s) => QueryView::Auto(s@),
            Query::File(s) => QueryView::File(s@),
            Query::Package(s) => QueryView::Package(s@),
            Query::Process(p) => QueryView::Process(*p),
            Query::Service(s) => QueryView::Service(s@),
            Query::Port { number, protocol } => QueryView::Port { number: *number, protocol: *protocol },
            Query::StorePath(s) => QueryView::StorePath(s@),
        }
    }
}

impl PartialEq for Query {
    fn eq(&self, other: &Self) -> (r: bool) {
        match (self, other) {
            (Query::Auto(a), Query::Auto(b)) => text_eq(a.as_str(), b.as_str()),
            (Query::File(a), Query::File(b)) => text_eq(a.as_str(), b.as_str()),
            (Query::Package(a), Query::Package(b)) => text_eq(a.as_str(), b.as_str()),
            (Query::Process(a), Query::Process(b)) => *a == *b,
            (Query::Service(a), Query::Service(b)) => text_eq(a.as_str(), b.as_str()),
            (
                Query::Port { number: a, protocol: pa },
                Query::Port { number: b, protocol: pb },
            ) => *a == *b && match (pa, pb) {
                (Some(x), Some(y)) => *x == *y,
                (None, None) => true,
                _ => false,
            },
            (Query::StorePath(a), Query::StorePath(b)) => text_eq(a.as_str(), b.as_str()),
            _ => false,
        }
    }
}

impl Eq for Query {}

impl vstd::std_specs::cmp::PartialEqSpecImpl for Query {
    open spec fn obeys_eq_spec() -> bool {
        true
    }

    open spec fn eq_spec(&self, other: &Self) -> bool {
        self@ == other@
    }
}

// ---------------------------------------------------------------------------
// Parsing
// ---------------------------------------------------------------------------

/// Whether a query text names the Nix store or a path inside it.
pub open spec fn is_nix_store_path(v: Seq<char>) -> bool {
    v == "/nix/store"@ || starts_with(v, "/nix/store/"@)
}

/// Whether a query text looks like a path: absolute, or relative with an
/// explicit `./` or `../`, or `.` itself.
pub open spec fn looks_like_path(v: Seq<char>) -> bool {
    starts_with(v, "/"@) || starts_with(v, "./"@) || starts_with(v, "../"@) || v == "."@
}

/// The message for a structured query with the wrong number of values.
pub open spec fn one_value_message(kind: Seq<char>) -> Seq<char> {
    kind + " queries require exactly one value"@
}

/// What parsing the value of a `port` query gives.
pub open spec fn parse_port_spec(value: Seq<char>) -> Result<QueryView, Seq<char>> {
    let (protocol, number): (Result<Option<Protocol>, Seq<char>>, Seq<char>) = match split_once(value, ":"@) {
        Some((p, n)) => (
            if p == "tcp"@ {
                Ok(Some(Protocol::Tcp))
            } else if p == "udp"@ {
                Ok(Some(Protocol::Udp))
            } else {
                Err("unsupported port protocol: "@ + p)
            },
            n,
        ),
        None => (Ok(None), value),
    };
    match protocol {
        Err(m) => Err(m),
        Ok(protocol) => match parse_unsigned(number, 65535) {
            Some(n) => Ok(QueryView::Port { number: n as u16, protocol }),
            None => Err("invalid port: "@ + number),
        },
    }
}

/// What `Query::parse` gives for the given words: the query, or the message
/// of the error.
pub open spec fn parse_query(parts: Seq<Seq<char>>) -> Result<QueryView, Seq<char>> {
    if parts.len() == 0 {
        Err("expected a query, for example: syswhy firefox"@)
    } else if parts[0] == "package"@ {
        if parts.len() != 2 {
            Err(one_value_message("package"@))
        } else {
            Ok(QueryView::Package(parts[1]))
        }
    } else if parts[0] == "pid"@ || parts[0] == "process"@ {
        if parts.len() != 2 {
            Err(one_value_message(parts[0]))
        } else {
            match parse_unsigned(parts[1], 0xffff_ffff) {
                Some(pid) => Ok(QueryView::Process(pid as u32)),
                None => Err("invalid PID: "@ + parts[1]),
            }
        }
    } else if parts[0] == "service"@ {
        if parts.len() != 2 {
            Err(one_value_message("service"@))
        } else {
            Ok(QueryView::Service(parts[1]))
        }
    } else if parts[0] == "port"@ {
        if parts.len() != 2 {
            Err(one_value_message("port"@))
        } else {
            parse_port_spec(parts[1])
        }
    } else {
        let raw = join(parts, " "@);
        if is_nix_store_path(raw) {
            Ok(QueryView::StorePath(raw))
        } else if looks_like_path(raw) {
            Ok(QueryView::File(raw))
        } else {
            Ok(QueryView::Auto(raw))
        }
    }
}

/// A message made of a fixed prefix and a value.
fn message(prefix: &str, value: &str) -> (r: String)
    ensures
        r@ == prefix@ + value@,
{
    let mut r = owned(prefix);
    r.append(value);
    r
}

fn parse_port(value: &str) -> (r: Result<Query, SyswhyError>)
    ensures
        match r {
            Ok(q) => parse_port_spec(value@) == Ok::<QueryView, Seq<char>>(q@),
            Err(e) => parse_port_spec(value@) == Err::<QueryView, Seq<char>>(e@),
        },
{
    let (protocol, number) = match split_once_text(value, ":") {
        Some((p, n)) => {
            let protocol = if text_eq(p.as_str(), "tcp") {
                Protocol::Tcp
            } else if text_eq(p.as_str(), "udp") {
                Protocol::Udp
            } else {
                return Err(SyswhyError::InvalidQuery(message("unsupported port protocol: ", p.as_str())));
            };
            (Some(protocol), n)
        },
        None => (None, owned(value)),
    };
    match parse_unsigned_max(number.as_str(), 65535) {
        Some(n) => Ok(Query::Port { number: n as u16, protocol }),
        None => Err(SyswhyError::InvalidQuery(message("invalid port: ", number.as_str()))),
    }
}

fn one_value_error(kind: &str) -> (r: SyswhyError)
    ensures
        r@ == one_value_message(kind@),
{
    SyswhyError::InvalidQuery(message(kind, " queries require exactly one value"))
}

impl Query {
    /// Reads a query from the words the user typed.
    pub fn parse(parts: &[String]) -> (r: Result<Self, SyswhyError>)
        ensures
            match r {
                Ok(q) => parse_query(views(parts@)) == Ok::<QueryView, Seq<char>>(q@),
                Err(e) => parse_query(views(parts@)) == Err::<QueryView, Seq<char>>(e@),
            },
    {
        let ghost ps = views(parts@);
        if parts.len() == 0 {
            return Err(SyswhyError::InvalidQuery(owned("expected a query, for example: syswhy firefox")));
        }
        assert(ps[0] == parts@[0]@);
        let first = parts[0].as_str();
        if text_eq(first, "package") {
            if parts.len() != 2 {
                return Err(one_value_error("package"));
            }
            assert(ps[1] == parts@[1]@);
            return Ok(Query::Package(parts[1].clone()));
        }
        if text_eq(first, "pid") || text_eq(first, "process") {
            if parts.len() != 2 {
                return Err(one_value_error(first));
            }
            assert(ps[1] == parts@[1]@);
            let value = parts[1].as_str();
            return match parse_unsigned_max(value, 0xffff_ffff) {
                Some(pid) => Ok(Query::Process(pid as u32)),
                None => Err(SyswhyError::InvalidQuery(message("invalid PID: ", value))),
            };
        }
        if text_eq(first, "service") {
            if parts.len() != 2 {
                return Err(one_value_error("service"));
            }
            assert(ps[1] == parts@[1]@);
            return Ok(Query::Service(parts[1].clone()));
        }
        if text_eq(first, "port") {
            if parts.len() != 2 {
                return Err(one_value_error("port"));
            }
            assert(ps[1] == parts@[1]@);
            return parse_port(parts[1].as_str());
        }
        let mut words: Vec<String> = Vec::new();
        let mut i: usize = 0;
        while i < parts.len()
            invariant
                i <= parts.len(),
                views(words@) == views(parts@).take(i as int),
            decreases parts.len() - i,
        {
            let w = parts[i].clone();
            let ghost before = views(words@);
            words.push(w);
            assert(views(words@) =~= before.push(parts@[i as int]@));
            assert(views(parts@).take(i + 1) =~= views(parts@).take(i as int).push(parts@[i as int]@));
            i += 1;
        }
        assert(views(parts@).take(parts.len() as int) =~= views(parts@));
        let raw = join_strings(&words, " ");
        if text_eq(raw.as_str(), "/nix/store") || starts_with_text(raw.as_str(), "/nix/store/") {
            Ok(Query::StorePath(raw))
        } else if starts_with_text(raw.as_str(), "/") || starts_with_text(raw.as_str(), "./")
            || starts_with_text(raw.as_str(), "../") || text_eq(raw.as_str(), ".") {
            Ok(Query::File(raw))
        } else {
            Ok(Query::Auto(raw))
        }
    }
}

// ---------------------------------------------------------------------------
// Describing
// ---------------------------------------------------------------------------

/// The machine-readable kind of a query.
pub open spec fn query_kind(q: QueryView) -> Seq<char> {
    match q {
        QueryView::Auto(_) => "auto"@,
        QueryView::File(_) => "file"@,
        QueryView::Package(_) => "package"@,
        QueryView::Process(_) => "process"@,
        QueryView::Service(_) => "service"@,
        QueryView::Port { .. } => "port"@,
        QueryView::StorePath(_) => "store_path"@,
    }
}

/// The value of a query as it is shown.
pub open spec fn query_value(q: QueryView) -> Seq<char> {
    match q {
        QueryView::Auto(v) => v,
        QueryView::Package(v) => v,
        QueryView::Service(v) => v,
        QueryView::File(p) => p,
        QueryView::StorePath(p) => p,
        QueryView::Process(pid) => decimal(pid as nat),
        QueryView::Port { number, protocol } => match protocol {
            Some(p) => protocol_name(p) + ":"@ + decimal(number as nat),
            None => decimal(number as nat),
        },
    }
}

/// How a query was understood, in words.
pub open spec fn query_interpretation(q: QueryView) -> Seq<char> {
    match q {
        QueryView::Auto(_) => "auto search"@,
        QueryView::File(_) => "file path"@,
        QueryView::Package(_) => "package search"@,
        QueryView::Process(_) => "process id"@,
        QueryView::Service(_) => "systemd service"@,
        QueryView::Port { .. } => "network port"@,
        QueryView::StorePath(_) => "nix store path"@,
    }
}

impl Query {
    pub fn kind(&self) -> (r: &'static str)
        ensures
            r@ == query_kind(self@),
    {
        match self {
            Self::Auto(_) => "auto",
            Self::File(_) => "file",
            Self::Package(_) => "package",
            Self::Process(_) => "process",
            Self::Service(_) => "service",
            Self::Port { .. } => "port",
            Self::StorePath(_) => "store_path",
        }
    }

    pub fn value(&self) -> (r: String)
        ensures
            r@ == query_value(self@),
    {
        match self {
            Self::Auto(value) | Self::Package(value) | Self::Service(value) => value.clone(),
            Self::File(path) | Self::StorePath(path) => path.clone(),
            Self::Process(pid) => {
                let mut r = String::new();
                push_decimal(&mut r, *pid as u64);
                assert(r@ =~= decimal(*pid as nat));
                r
            },
            Self::Port { number, protocol } => match protocol {
                Some(protocol) => {
                    let mut r = owned(protocol.as_str());
                    r.append(":");
                    push_decimal(&mut r, *number as u64);
                    r
                },
                None => {
                    let mut r = String::new();
                    push_decimal(&mut r, *number as u64);
                    assert(r@ =~= decimal(*number as nat));
                    r
                },
            },
        }
    }

    pub fn interpreted_as(&self) -> (r: &'static str)
        ensures
            r@ == query_interpretation(self@),
    {
        match self {
            Self::Auto(_) => "auto search",
            Self::File(_) => "file path",
            Self::Package(_) => "package search",
            Self::Process(_) => "process id",
            Self::Service(_) => "systemd service",
            Self::Port { .. } => "network port",
            Self::StorePath(_) => "nix store path",
        }
    }

    /// A copy of this query.
    pub fn duplicate(&self) -> (r: Self)
        ensures
            r@ == self@,
    {
        match self {
            Self::Auto(v) => Self::Auto(v.clone()),
            Self::File(v) => Self::File(v.clone()),
            Self::Package(v) => Self::Package(v.clone()),
            Self::Process(p) => Self::Process(*p),
            Self::Service(v) => Self::Service(v.clone()),
            Self::Port { number, protocol } => Self::Port { number: *number, protocol: *protocol },
            Self::StorePath(v) => Self::StorePath(v.clone()),
        }
    }
}

/// A single word that is not a query keyword is looked up as itself: it
/// parses, and the value of its query is the word.
pub proof fn law_single_word_is_its_own_value(w: Seq<char>)
    requires
        w != "package"@,
        w != "pid"@,
        w != "process"@,
        w != "service"@,
        w != "port"@,
    ensures
        parse_query(seq![w]) is Ok,
        query_value(parse_query(seq![w])->Ok_0) == w,
{
    assert(join(seq![w], " "@) == w);
}

/// The decimal spelling of a number holds no `:`, so a port value without a
/// protocol is not split.
proof fn lemma_decimal_has_no_colon(n: nat)
    ensures
        split_once(decimal(n), ":"@) is None,
{
    reveal_strlit(":");
    lemma_decimal_reads_back(n);
    let s = decimal(n);
    lemma_find_from_bounds(s, ":"@, 0);
    if let Some(k) = find_from(s, ":"@, 0) {
        assert(occurs_at(s, ":"@, k));
        assert(s.subrange(k, k + 1)[0] == s[k]);
        assert(is_digit(s[k]));
    }
}

/// A port value with a protocol splits at the colon after the protocol name.
proof fn lemma_port_value_splits(p: Protocol, n: nat)
    ensures
        split_once(protocol_name(p) + ":"@ + decimal(n), ":"@) == Some((protocol_name(p), decimal(n))),
{
    reveal_strlit(":");
    reveal_strlit("tcp");
    reveal_strlit("udp");
    let name = protocol_name(p);
    let s = name + ":"@ + decimal(n);
    assert(name.len() == 3);
    assert(name[0] != ':' && name[1] != ':' && name[2] != ':') by {
        match p {
            Protocol::Tcp => {},
            Protocol::Udp => {},
        }
    }
    assert(s.subrange(3, 4) =~= ":"@);
    assert(occurs_at(s, ":"@, 3));
    assert(find_from(s, ":"@, 3) == Some(3int));
    assert(s.subrange(2, 3) =~= seq![name[2]]);
    assert(!occurs_at(s, ":"@, 2)) by {
        if occurs_at(s, ":"@, 2) {
            assert(s.subrange(2, 3)[0] == ":"@[0]);
        }
    }
    assert(find_from(s, ":"@, 2) == Some(3int));
    assert(s.subrange(1, 2) =~= seq![name[1]]);
    assert(!occurs_at(s, ":"@, 1)) by {
        if occurs_at(s, ":"@, 1) {
            assert(s.subrange(1, 2)[0] == ":"@[0]);
        }
    }
    assert(find_from(s, ":"@, 1) == Some(3int));
    assert(s.subrange(0, 1) =~= seq![name[0]]);
    assert(!occurs_at(s, ":"@, 0)) by {
        if occurs_at(s, ":"@, 0) {
            assert(s.subrange(0, 1)[0] == ":"@[0]);
        }
    }
    assert(find_from(s, ":"@, 0) == Some(3int));
    assert(s.take(3) =~= name);
    assert(s.skip(4) =~= decimal(n));
}

/// A package, process, service or port query is read back from its kind and
/// its value: parsing those two words gives the same query.
pub proof fn law_kind_and_value_parse_back(q: QueryView)
    requires
        q is Package || q is Process || q is Service || q is Port,
    ensures
        parse_query(seq![query_kind(q), query_value(q)]) == Ok::<QueryView, Seq<char>>(q),
{
    reveal_strlit("package");
    reveal_strlit("pid");
    reveal_strlit("process");
    reveal_strlit("service");
    reveal_strlit("port");
    reveal_strlit("tcp");
    reveal_strlit("udp");
    let parts = seq![query_kind(q), query_value(q)];
    match q {
        QueryView::Process(pid) => {
            assert("process"@[2] != "package"@[2]);
            lemma_decimal_reads_back(pid as nat);
            assert(parse_unsigned(parts[1], 0xffff_ffff) == Some(pid as nat));
        },
        QueryView::Port { number, protocol } => {
            lemma_decimal_reads_back(number as nat);
            match protocol {
                Some(p) => {
                    lemma_port_value_splits(p, number as nat);
                    assert("udp"@[0] != "tcp"@[0]);
                },
                None => {
                    lemma_decimal_has_no_colon(number as nat);
                },
            }
            assert(parse_unsigned(decimal(number as nat), 65535) == Some(number as nat));
            assert(parse_port_spec(parts[1]) == Ok::<QueryView, Seq<char>>(q));
            assert("port"@[1] != "package"@[1]);
            assert("port"@[0] != "service"@[0]);
        },
        QueryView::Service(_) => {
            assert("service"@[0] != "package"@[0]);
            assert("service"@[0] != "process"@[0]);
        },
        _ => {},
    }
}

/// A single word written as a path is looked up as a file: one that starts
/// with `./` or `../`, the word `.`, or an absolute path outside the Nix
/// store parses as a file query holding the word as it was typed.
pub proof fn law_path_words_are_files(w: Seq<char>)
    requires
        starts_with(w, "./"@) || starts_with(w, "../"@) || w == "."@ || (starts_with(w, "/"@) && w != "/nix/store"@
            && !starts_with(w, "/nix/store/"@)),
    ensures
        parse_query(seq![w]) == Ok::<QueryView, Seq<char>>(QueryView::File(w)),
{
    reveal_strlit("./");
    reveal_strlit("../");
    reveal_strlit(".");
    reveal_strlit("/");
    reveal_strlit("/nix/store");
    reveal_strlit("/nix/store/");
    reveal_strlit("package");
    reveal_strlit("pid");
    reveal_strlit("process");
    reveal_strlit("service");
    reveal_strlit("port");
    assert(join(seq![w], " "@) == w);
    assert(w.len() > 0);
    assert(w[0] == '.' || w[0] == '/') by {
        if starts_with(w, "./"@) {
            assert(w.subrange(0, 2)[0] == w[0]);
        } else if starts_with(w, "../"@) {
            assert(w.subrange(0, 3)[0] == w[0]);
        } else if starts_with(w, "/"@) {
            assert(w.subrange(0, 1)[0] == w[0]);
        }
    }
    assert(w != "package"@ && w != "pid"@ && w != "process"@ && w != "service"@ && w != "port"@) by {
        assert("package"@[0] == 'p' && "pid"@[0] == 'p' && "process"@[0] == 'p' && "service"@[0] == 's' && "port"@[0] == 'p');
    }
    if w[0] == '.' {
        assert(!is_nix_store_path(w)) by {
            if starts_with(w, "/nix/store/"@) {
                assert(w.subrange(0, 11)[0] == w[0]);
            }
        }
    }
}

} // verus!
