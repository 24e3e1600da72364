//! Structured backup identifiers.
//!
//! An identifier has the form
//! `backup_{YYYY-MM-DD}_{HHMMSS}_{environment}[_{server}]_{suffix}`:
//! a timestamp rendered with second precision, the environment the backup
//! belongs to, an optional server tag, and a six-character alphanumeric
//! suffix. The string sorts lexicographically in chronological order by
//! construction, and every field can be recovered by parsing.

use vstd::prelude::*;
use vstd::string::*;

use crate::text::{chars_eq_str, chars_of, is_alnum_char, push_chars, string_of_chars};
use crate::timestamp::{spec_timestamp_of, Timestamp};

verus! {

// ----------------------------------------------------------------------
// Splitting on underscores
// ----------------------------------------------------------------------
/// The segments of `s` between underscores, in order. Splitting the empty
/// sequence gives one empty segment, as `str::split` does.
pub open spec fn spec_split_us(s: Seq<char>) -> Seq<Seq<char>>
    decreases s.len(),
{
    if s.len() == 0 {
        seq![Seq::<char>::empty()]
    } else if s[0] == '_' {
        seq![Seq::<char>::empty()] + spec_split_us(s.drop_first())
    } else {
        let rest = spec_split_us(s.drop_first());
        seq![seq![s[0]] + rest[0]] + rest.drop_first()
    }
}

/// True when `s` contains no underscore, so that it survives splitting
/// as one piece.
pub open spec fn seg_free(s: Seq<char>) -> bool {
    forall|i: int| 0 <= i < s.len() ==> s[i] != '_'
}

pub proof fn lemma_split_us_nonempty(s: Seq<char>)
    ensures
        spec_split_us(s).len() >= 1,
    decreases s.len(),
{
    if s.len() > 0 {
        lemma_split_us_nonempty(s.drop_first());
    }
}

/// An underscore-free sequence splits into exactly itself.
pub proof fn lemma_split_us_free(s: Seq<char>)
    requires
        seg_free(s),
    ensures
        spec_split_us(s) == seq![s],
    decreases s.len(),
{
    if s.len() == 0 {
        assert(spec_split_us(s) =~~= seq![s]);
    } else {
        assert(seg_free(s.drop_first()));
        lemma_split_us_free(s.drop_first());
        assert(seq![s[0]] + s.drop_first() =~= s);
        assert(spec_split_us(s) =~~= seq![s]);
    }
}

/// Splitting `seg + "_" + t` with `seg` underscore-free yields `seg`
/// followed by the segments of `t`.
pub proof fn lemma_split_us_concat(seg: Seq<char>, t: Seq<char>)
    requires
        seg_free(seg),
    ensures
        spec_split_us(seg + seq!['_'] + t) == seq![seg] + spec_split_us(t),
    decreases seg.len(),
{
    let s = seg + seq!['_'] + t;
    if seg.len() == 0 {
        assert(s =~= seq!['_'] + t);
        assert(s[0] == '_');
        assert(s.drop_first() =~= t);
        assert(spec_split_us(s) =~~= seq![seg] + spec_split_us(t));
    } else {
        assert(seg_free(seg.drop_first()));
        lemma_split_us_concat(seg.drop_first(), t);
        assert(s[0] == seg[0]);
        assert(s[0] != '_');
        assert(s.drop_first() =~= seg.drop_first() + seq!['_'] + t);
        let rest = spec_split_us(s.drop_first());
        assert(rest == seq![seg.drop_first()] + spec_split_us(t));
        assert(rest[0] == seg.drop_first());
        assert(seq![s[0]] + rest[0] =~= seg);
        assert(rest.drop_first() =~= spec_split_us(t));
        assert(spec_split_us(s) =~~= seq![seg] + spec_split_us(t));
    }
}

/// Splits `cs` on underscores; the executable counterpart of
/// [`spec_split_us`].
pub fn split_underscores(cs: &Vec<char>) -> (parts: Vec<Vec<char>>)
    ensures
        parts@.map_values(|v: Vec<char>| v@) == spec_split_us(cs@),
        parts@.len() >= 1,
{
    let n = cs.len();
    let mut parts: Vec<Vec<char>> = Vec::new();
    parts.push(Vec::new());
    let mut i: usize = n;
    proof {
        assert(cs@.skip(n as int) =~= Seq::<char>::empty());
        assert(parts@.map_values(|v: Vec<char>| v@) =~~= spec_split_us(cs@.skip(n as int)));
    }
    while i > 0
        invariant
            i <= n,
            n == cs@.len(),
            parts@.len() >= 1,
            parts@.map_values(|v: Vec<char>| v@) == spec_split_us(cs@.skip(i as int)),
        decreases i,
    {
        i = i - 1;
        let ghost suffix = cs@.skip(i as int);
        let ghost rest = spec_split_us(cs@.skip(i as int + 1));
        proof {
            assert(suffix[0] == cs@[i as int]);
            assert(suffix.drop_first() =~= cs@.skip(i as int + 1));
            lemma_split_us_nonempty(cs@.skip(i as int + 1));
        }
        let c = cs[i];
        if c == '_' {
            let ghost before = parts@;
            parts.insert(0, Vec::new());
            proof {
                assert(parts@.map_values(|v: Vec<char>| v@) =~~= seq![Seq::<char>::empty()]
                    + before.map_values(|v: Vec<char>| v@));
                assert(parts@.map_values(|v: Vec<char>| v@) =~~= spec_split_us(suffix));
            }
        } else {
            let ghost before = parts@;
            let mut first = parts.remove(0);
            first.insert(0, c);
            let ghost new_first = first@;
            parts.insert(0, first);
            proof {
                assert(new_first =~= seq![cs@[i as int]] + before.map_values(
                    |v: Vec<char>| v@,
                )[0]);
                assert(parts@.map_values(|v: Vec<char>| v@) =~~= seq![new_first]
                    + before.map_values(|v: Vec<char>| v@).drop_first());
                assert(parts@.map_values(|v: Vec<char>| v@) =~~= spec_split_us(suffix));
            }
        }
    }
    proof {
        assert(cs@.skip(0) =~= cs@);
    }
    parts
}

// ----------------------------------------------------------------------
// The identifier grammar
// ----------------------------------------------------------------------
/// The literal first segment of every backup identifier.
pub open spec fn spec_backup_word() -> Seq<char> {
    seq!['b', 'a', 'c', 'k', 'u', 'p']
}

pub proof fn lemma_backup_word_free()
    ensures
        seg_free(spec_backup_word()),
        spec_backup_word() == "backup"@,
{
    reveal_strlit("backup");
    assert forall|i: int| 0 <= i < spec_backup_word().len() implies spec_backup_word()[i]
        != '_' by {
        if i == 0 {
        } else if i == 1 {
        } else if i == 2 {
        } else if i == 3 {
        } else if i == 4 {
        }
    }
    assert(spec_backup_word() =~= "backup"@);
}

/// The tail of an identifier from the environment segment on: the
/// environment, the server tag if there is one, and the random suffix,
/// separated by underscores.
pub open spec fn spec_id_tail(
    env: Seq<char>,
    server: Option<Seq<char>>,
    suffix: Seq<char>,
) -> Seq<char> {
    match server {
        Some(sv) => env + seq!['_'] + (sv + seq!['_'] + suffix),
        None => env + seq!['_'] + suffix,
    }
}

/// The identifier rendered for the given environment, optional server
/// tag, timestamp and random suffix.
pub open spec fn spec_backup_id(
    env: Seq<char>,
    server: Option<Seq<char>>,
    t: Timestamp,
    suffix: Seq<char>,
) -> Seq<char> {
    spec_backup_word() + seq!['_'] + (t.spec_date_chars() + seq!['_'] + (t.spec_time_chars()
        + seq!['_'] + spec_id_tail(env, server, suffix)))
}

/// The fields recovered from an identifier string.
pub struct BackupIdView {
    pub id: Seq<char>,
    pub timestamp: Timestamp,
    pub environment: Seq<char>,
    pub server_id: Option<Seq<char>>,
    pub random_suffix: Seq<char>,
}

/// What parsing an identifier string yields: `None` unless the string has
/// the literal `backup` first segment, at least five segments, and a date
/// and time segment naming a real moment. Segments past the sixth are
/// ignored: the grammar reads only the leading ones.
pub open spec fn spec_parse(s: Seq<char>) -> Option<BackupIdView> {
    let parts = spec_split_us(s);
    if parts.len() < 5 {
        None
    } else if parts[0] != spec_backup_word() {
        None
    } else {
        match spec_timestamp_of(parts[1], parts[2]) {
            None => None,
            Some(t) => Some(
                BackupIdView {
                    id: s,
                    timestamp: t,
                    environment: parts[3],
                    server_id: if parts.len() > 5 {
                        Some(parts[4])
                    } else {
                        None
                    },
                    random_suffix: if parts.len() > 5 {
                        parts[5]
                    } else {
                        parts[4]
                    },
                },
            ),
        }
    }
}

/// The environment an identifier belongs to: the parsed environment
/// segment, or `dev` for a string that does not parse. The storage
/// backends place and look up blobs under this environment.
pub open spec fn spec_environment_of(id: Seq<char>) -> Seq<char> {
    match spec_parse(id) {
        Some(v) => v.environment,
        None => seq!['d', 'e', 'v'],
    }
}

/// Parsing a rendered identifier recovers the environment, the server
/// tag, the timestamp, and the suffix that went in.
#[verifier::rlimit(100)]
#[verifier::spinoff_prover]
pub proof fn lemma_parse_of_rendered(
    env: Seq<char>,
    server: Option<Seq<char>>,
    t: Timestamp,
    suffix: Seq<char>,
)
    requires
        seg_free(env),
        match server {
            Some(sv) => seg_free(sv),
            None => true,
        },
        seg_free(suffix),
        t.wf(),
    ensures
        spec_parse(spec_backup_id(env, server, t, suffix)) == Some(
            BackupIdView {
                id: spec_backup_id(env, server, t, suffix),
                timestamp: t,
                environment: env,
                server_id: server,
                random_suffix: suffix,
            },
        ),
{
    let id = spec_backup_id(env, server, t, suffix);
    let date = t.spec_date_chars();
    let time = t.spec_time_chars();
    let word = spec_backup_word();
    crate::timestamp::lemma_timestamp_render_roundtrip(t);
    lemma_backup_word_free();
    assert(seg_free(date));
    assert(seg_free(time));
    lemma_split_us_free(suffix);
    let tail = spec_id_tail(env, server, suffix);
    let t2 = time + seq!['_'] + tail;
    let t1 = date + seq!['_'] + t2;
    lemma_split_us_concat(word, t1);
    lemma_split_us_concat(date, t2);
    lemma_split_us_concat(time, tail);
    let parts = spec_split_us(id);
    match server {
        None => {
            lemma_split_us_concat(env, suffix);
            assert(parts == seq![word] + (seq![date] + (seq![time] + (seq![env]
                + seq![suffix]))));
            assert(parts.len() == 5);
            assert(parts[0] == word);
            assert(parts[1] == date);
            assert(parts[2] == time);
            assert(parts[3] == env);
            assert(parts[4] == suffix);
        },
        Some(sv) => {
            lemma_split_us_concat(env, sv + seq!['_'] + suffix);
            lemma_split_us_concat(sv, suffix);
            assert(parts == seq![word] + (seq![date] + (seq![time] + (seq![env] + (seq![sv]
                + seq![suffix])))));
            assert(parts.len() == 6);
            assert(parts[0] == word);
            assert(parts[1] == date);
            assert(parts[2] == time);
            assert(parts[3] == env);
            assert(parts[4] == sv);
            assert(parts[5] == suffix);
        },
    }
}

/// Identifiers sort chronologically: one rendered for an earlier moment
/// is lexicographically strictly earlier than one rendered for a later
/// moment, whatever their environments, server tags and suffixes. The
/// sort key is the identifier string itself.
pub proof fn lemma_id_order_chronological(
    env1: Seq<char>,
    env2: Seq<char>,
    server1: Option<Seq<char>>,
    server2: Option<Seq<char>>,
    a: Timestamp,
    b: Timestamp,
    sfx1: Seq<char>,
    sfx2: Seq<char>,
)
    requires
        a.wf(),
        b.wf(),
        crate::timestamp::spec_chrono_lt(a, b),
    ensures
        crate::text::lex_leq(
            spec_backup_id(env1, server1, a, sfx1),
            spec_backup_id(env2, server2, b, sfx2),
        ),
        spec_backup_id(env1, server1, a, sfx1) != spec_backup_id(env2, server2, b, sfx2),
{
    let ida = spec_backup_id(env1, server1, a, sfx1);
    let idb = spec_backup_id(env2, server2, b, sfx2);
    let head = spec_backup_word() + seq!['_'];
    let resta = seq!['_'] + spec_id_tail(env1, server1, sfx1);
    let restb = seq!['_'] + spec_id_tail(env2, server2, sfx2);
    assert(ida =~= head + (crate::timestamp::spec_stamp_chars(a) + resta));
    assert(idb =~= head + (crate::timestamp::spec_stamp_chars(b) + restb));
    crate::timestamp::lemma_stamp_order(a, b);
    crate::text::lemma_lex_strict_extends(
        crate::timestamp::spec_stamp_chars(a),
        crate::timestamp::spec_stamp_chars(b),
        resta,
        restb,
    );
    crate::text::lemma_lex_common_prefix(
        head,
        crate::timestamp::spec_stamp_chars(a) + resta,
        crate::timestamp::spec_stamp_chars(b) + restb,
    );
}

// ----------------------------------------------------------------------
// Parsing, executable
// ----------------------------------------------------------------------
/// Reads a `YYYY-MM-DD` date segment and a `HHMMSS` time segment.
pub fn timestamp_of_segments(date: &Vec<char>, time: &Vec<char>) -> (r: Option<Timestamp>)
    ensures
        r == spec_timestamp_of(date@, time@),
{
    if date.len() != 10 || time.len() != 6 {
        return None;
    }
    if date[4] != '-' || date[7] != '-' {
        return None;
    }
    let d0 = crate::text::digit_val_exec(date[0]);
    let d1 = crate::text::digit_val_exec(date[1]);
    let d2 = crate::text::digit_val_exec(date[2]);
    let d3 = crate::text::digit_val_exec(date[3]);
    let d5 = crate::text::digit_val_exec(date[5]);
    let d6 = crate::text::digit_val_exec(date[6]);
    let d8 = crate::text::digit_val_exec(date[8]);
    let d9 = crate::text::digit_val_exec(date[9]);
    let t0 = crate::text::digit_val_exec(time[0]);
    let t1 = crate::text::digit_val_exec(time[1]);
    let t2 = crate::text::digit_val_exec(time[2]);
    let t3 = crate::text::digit_val_exec(time[3]);
    let t4 = crate::text::digit_val_exec(time[4]);
    let t5 = crate::text::digit_val_exec(time[5]);
    match (d0, d1, d2, d3, d5, d6, d8, d9, t0, t1, t2, t3, t4, t5) {
        (
            Some(y3),
            Some(y2),
            Some(y1),
            Some(y0),
            Some(mo1),
            Some(mo0),
            Some(da1),
            Some(da0),
            Some(h1),
            Some(h0),
            Some(mi1),
            Some(mi0),
            Some(s1),
            Some(s0),
        ) => {
            let year: u16 = y3 as u16 * 1000 + y2 as u16 * 100 + y1 as u16 * 10 + y0 as u16;
            let month: u8 = mo1 * 10 + mo0;
            let day: u8 = da1 * 10 + da0;
            let hour: u8 = h1 * 10 + h0;
            let minute: u8 = mi1 * 10 + mi0;
            let second: u8 = s1 * 10 + s0;
            proof {
                assert(date@.subrange(5, 7)[0] == date@[5]);
                assert(date@.subrange(5, 7)[1] == date@[6]);
                assert(date@.subrange(8, 10)[0] == date@[8]);
                assert(date@.subrange(8, 10)[1] == date@[9]);
                assert(time@.subrange(2, 4)[0] == time@[2]);
                assert(time@.subrange(2, 4)[1] == time@[3]);
                assert(time@.subrange(4, 6)[0] == time@[4]);
                assert(time@.subrange(4, 6)[1] == time@[5]);
            }
            Timestamp::new(year, month, day, hour, minute, second)
        },
        _ => None,
    }
}

/// Service that renders backup identifiers for one environment and
/// optional server tag.
#[derive(Clone, Debug)]
pub struct BackupNamingService {
    environment: String,
    server_id: Option<String>,
}

impl BackupNamingService {
    /// The environment segment this service renders.
    pub closed spec fn spec_environment(&self) -> Seq<char> {
        self.environment@
    }

    /// The server segment this service renders, if any.
    pub closed spec fn spec_server(&self) -> Option<Seq<char>> {
        match self.server_id {
            Some(ref s) => Some(s@),
            None => None,
        }
    }

    /// Create a naming service for the given environment and optional
    /// server tag.
    pub fn new(environment: &str, server_id: Option<&str>) -> (r: Self)
        ensures
            r.spec_environment() == environment@,
            r.spec_server() == match server_id {
                Some(s) => Some(s@),
                None => None::<Seq<char>>,
            },
    {
        BackupNamingService {
            environment: environment.to_owned(),
            server_id: match server_id {
                Some(s) => Some(s.to_owned()),
                None => None,
            },
        }
    }

    /// The directory name backups of this environment are grouped under.
    pub fn environment_dir(&self) -> (r: String)
        ensures
            r@ == self.spec_environment(),
    {
        self.environment.clone()
    }

    /// Renders the identifier for the given timestamp and suffix.
    pub fn render_backup_id(&self, timestamp: &Timestamp, suffix: &str) -> (r: String)
        requires
            timestamp.wf(),
        ensures
            r@ == spec_backup_id(
                self.spec_environment(),
                self.spec_server(),
                *timestamp,
                suffix@,
            ),
    {
        let mut out: Vec<char> = Vec::new();
        out.push('b');
        out.push('a');
        out.push('c');
        out.push('k');
        out.push('u');
        out.push('p');
        out.push('_');
        proof {
            assert(out@ =~= spec_backup_word() + seq!['_']);
        }
        timestamp.push_date_chars(&mut out);
        out.push('_');
        timestamp.push_time_chars(&mut out);
        out.push('_');
        let env = chars_of(self.environment.as_str());
        push_chars(&mut out, &env);
        match &self.server_id {
            Some(sv) => {
                out.push('_');
                let svc = chars_of(sv.as_str());
                push_chars(&mut out, &svc);
            },
            None => {},
        }
        out.push('_');
        let sfx = chars_of(suffix);
        push_chars(&mut out, &sfx);
        proof {
            assert(out@ =~= spec_backup_id(
                self.spec_environment(),
                self.spec_server(),
                *timestamp,
                suffix@,
            ));
        }
        string_of_chars(&out)
    }

    /// Generate a backup identifier for the given timestamp; the suffix
    /// is drawn at random, six alphanumeric characters.
    pub fn generate_backup_id_with_time(&self, timestamp: &Timestamp) -> (r: String)
        requires
            timestamp.wf(),
        ensures
            exists|sfx: Seq<char>|
                #[trigger] spec_backup_id(
                    self.spec_environment(),
                    self.spec_server(),
                    *timestamp,
                    sfx,
                ) == r@ && sfx.len() == 6 && seg_free(sfx) && (forall|i: int|
                    0 <= i < 6 ==> is_alnum_char(#[trigger] sfx[i])),
    {
        let suffix = self.generate_random_suffix();
        let r = self.render_backup_id(timestamp, suffix.as_str());
        proof {
            let sfx = suffix@;
            lemma_alnum_seg_free(sfx);
            assert(spec_backup_id(self.spec_environment(), self.spec_server(), *timestamp, sfx)
                == r@);
        }
        r
    }

    /// Generate a backup identifier for the current moment.
    pub fn generate_backup_id(&self) -> (r: String)
        ensures
            exists|t: Timestamp, sfx: Seq<char>|
                #[trigger] spec_backup_id(
                    self.spec_environment(),
                    self.spec_server(),
                    t,
                    sfx,
                ) == r@ && t.wf() && sfx.len() == 6 && seg_free(sfx) && (forall|i: int|
                    0 <= i < 6 ==> is_alnum_char(#[trigger] sfx[i])),
    {
        let now = Timestamp::now();
        self.generate_backup_id_with_time(&now)
    }

    /// Draws six alphanumeric characters at random.
    fn generate_random_suffix(&self) -> (r: String)
        ensures
            r@.len() == 6,
            forall|i: int| 0 <= i < 6 ==> is_alnum_char(#[trigger] r@[i]),
    {
        let mut out: Vec<char> = Vec::new();
        let mut i: usize = 0;
        while i < 6
            invariant
                i <= 6,
            out@.len() == i,
                forall|j: int| 0 <= j < i ==> is_alnum_char(#[trigger] out@[j]),
            decreases 6 - i,
        {
            out.push(random_alphanumeric_char());
            i = i + 1;
        }
        string_of_chars(&out)
    }
}

/// Relies on rand's `Alphanumeric` distribution: every sampled value is
/// an ASCII letter or digit.
#[verifier::external_body]
fn random_alphanumeric_char() -> (c: char)
    ensures
        is_alnum_char(c),
{
    rand::Rng::sample(&mut rand::thread_rng(), rand::distributions::Alphanumeric) as char
}

/// A parsed backup identifier.
#[derive(Clone, Debug)]
pub struct BackupId {
    id: String,
    timestamp: Timestamp,
    environment: String,
    server_id: Option<String>,
    random_suffix: String,
}

impl View for BackupId {
    type V = BackupIdView;

    closed spec fn view(&self) -> BackupIdView {
        BackupIdView {
            id: self.id@,
            timestamp: self.timestamp,
            environment: self.environment@,
            server_id: match self.server_id {
                Some(ref s) => Some(s@),
                None => None,
            },
            random_suffix: self.random_suffix@,
        }
    }
}

impl BackupId {
    /// Parse an identifier string into its fields; `None` when the string
    /// does not follow the identifier grammar.
    pub fn parse(backup_id: &str) -> (r: Option<BackupId>)
        ensures
            match r {
                Some(b) => spec_parse(backup_id@) == Some(b@),
                None => spec_parse(backup_id@) is None,
            },
    {
        let cs = chars_of(backup_id);
        let parts = split_underscores(&cs);
        let ghost sparts = spec_split_us(backup_id@);
        proof {
            assert(sparts[0] == parts@.map_values(|v: Vec<char>| v@)[0]);
        }
        if parts.len() < 5 {
            return None;
        }
        proof {
            lemma_backup_word_free();
        }
        if !chars_eq_str(&parts[0], "backup") {
            return None;
        }
        proof {
            assert(sparts[1] == parts@.map_values(|v: Vec<char>| v@)[1]);
            assert(sparts[2] == parts@.map_values(|v: Vec<char>| v@)[2]);
            assert(sparts[3] == parts@.map_values(|v: Vec<char>| v@)[3]);
        }
        let timestamp = match timestamp_of_segments(&parts[1], &parts[2]) {
            Some(t) => t,
            None => {
                return None;
            },
        };
        let environment = string_of_chars(&parts[3]);
        let (server_id, random_suffix) = if parts.len() > 5 {
            proof {
                assert(sparts[4] == parts@.map_values(|v: Vec<char>| v@)[4]);
                assert(sparts[5] == parts@.map_values(|v: Vec<char>| v@)[5]);
            }
            (Some(string_of_chars(&parts[4])), string_of_chars(&parts[5]))
        } else {
            proof {
                assert(sparts[4] == parts@.map_values(|v: Vec<char>| v@)[4]);
            }
            (None, string_of_chars(&parts[4]))
        };
        Some(
            BackupId {
                id: backup_id.to_owned(),
                timestamp,
                environment,
                server_id,
                random_suffix,
            },
        )
    }

    /// The original identifier string.
    pub fn id(&self) -> (r: &str)
        ensures
            r@ == self@.id,
    {
        self.id.as_str()
    }

    /// The timestamp the identifier carries.
    pub fn timestamp(&self) -> (r: &Timestamp)
        ensures
            *r == self@.timestamp,
    {
        &self.timestamp
    }

    /// The environment segment.
    pub fn environment(&self) -> (r: &str)
        ensures
            r@ == self@.environment,
    {
        self.environment.as_str()
    }

    /// The server tag, if the identifier carries one.
    pub fn server_id(&self) -> (r: Option<&str>)
        ensures
            match r {
                Some(s) => self@.server_id == Some(s@),
                None => self@.server_id is None,
            },
    {
        match &self.server_id {
            Some(s) => Some(s.as_str()),
            None => None,
        }
    }

    /// The random suffix.
    pub fn random_suffix(&self) -> (r: &str)
        ensures
            r@ == self@.random_suffix,
    {
        self.random_suffix.as_str()
    }
}

/// A suffix of letters and digits survives splitting whole: it holds
/// no underscore.
pub proof fn lemma_alnum_seg_free(s: Seq<char>)
    requires
        forall|i: int| 0 <= i < s.len() ==> is_alnum_char(#[trigger] s[i]),
    ensures
        seg_free(s),
{
}

/// The environment segment of a backup identifier, or `None` when the
/// identifier does not parse.
pub fn get_environment_from_backup_id(backup_id: &str) -> (r: Option<String>)
    ensures
        match r {
            Some(e) => spec_parse(backup_id@) matches Some(v) && e@ == v.environment,
            None => spec_parse(backup_id@) is None,
        },
{
    match BackupId::parse(backup_id) {
        Some(id) => Some(id.environment.clone()),
        None => None,
    }
}

/// The filesystem location of a backup under a base directory:
/// `{base}/{environment}/{id}.db`.
pub open spec fn spec_storage_path(base: Seq<char>, id: Seq<char>) -> Seq<char> {
    base + seq!['/'] + spec_environment_of(id) + seq!['/'] + id + seq!['.', 'd', 'b']
}

/// The object key of a backup under a key prefix:
/// `{prefix}/{environment}/backup-{id}.db`.
pub open spec fn spec_object_key(prefix: Seq<char>, id: Seq<char>) -> Seq<char> {
    prefix + seq!['/'] + spec_environment_of(id) + seq!['/'] + spec_backup_word() + seq!['-'] + id
        + seq!['.', 'd', 'b']
}

/// The storage path for a backup with the given identifier, or `None`
/// when the identifier does not parse and so names no environment.
pub fn get_backup_storage_path(base_dir: &str, backup_id: &str) -> (r: Option<String>)
    ensures
        match r {
            Some(p) => spec_parse(backup_id@) is Some && p@ == spec_storage_path(
                base_dir@,
                backup_id@,
            ),
            None => spec_parse(backup_id@) is None,
        },
{
    let env = match get_environment_from_backup_id(backup_id) {
        Some(e) => e,
        None => {
            return None;
        },
    };
    let mut out = chars_of(base_dir);
    out.push('/');
    let envc = chars_of(env.as_str());
    push_chars(&mut out, &envc);
    out.push('/');
    let idc = chars_of(backup_id);
    push_chars(&mut out, &idc);
    out.push('.');
    out.push('d');
    out.push('b');
    proof {
        assert(out@ =~= spec_storage_path(base_dir@, backup_id@));
    }
    Some(string_of_chars(&out))
}

/// The object key for a backup with the given identifier, or `None` when
/// the identifier does not parse and so names no environment.
pub fn get_backup_s3_key(prefix: &str, backup_id: &str) -> (r: Option<String>)
    ensures
        match r {
            Some(k) => spec_parse(backup_id@) is Some && k@ == spec_object_key(
                prefix@,
                backup_id@,
            ),
            None => spec_parse(backup_id@) is None,
        },
{
    let env = match get_environment_from_backup_id(backup_id) {
        Some(e) => e,
        None => {
            return None;
        },
    };
    let mut out = chars_of(prefix);
    out.push('/');
    let envc = chars_of(env.as_str());
    push_chars(&mut out, &envc);
    out.push('/');
    out.push('b');
    out.push('a');
    out.push('c');
    out.push('k');
    out.push('u');
    out.push('p');
    out.push('-');
    let idc = chars_of(backup_id);
    push_chars(&mut out, &idc);
    out.push('.');
    out.push('d');
    out.push('b');
    proof {
        assert(out@ =~= spec_object_key(prefix@, backup_id@));
    }
    Some(string_of_chars(&out))
}

} // verus!
