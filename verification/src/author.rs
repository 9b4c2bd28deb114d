//! The identity of a commit's author, and the parser that reads one from a
//! roster entry.

use crate::text::{chars_of, field, fields, next_field, span_contains, trim};
use vstd::prelude::*;
use vstd::std_specs::cmp::PartialEqSpec;
use vstd::string::StringExecFns;

verus! {

/// One person's commit identity.
#[derive(Debug)]
pub struct Author {
    /// The name to show; never empty in an author that was parsed.
    pub name: String,
    /// The address; holds an `@` in an author that was parsed.
    pub email: String,
    /// The id of the GPG signing key; empty where the author has none.
    pub gpg: String,
    /// The id of the SSH signing key; empty where the author has none.
    pub ssh: String,
}

/// An [`Author`] as contracts see it: each attribute as its characters.
pub struct AuthorView {
    pub name: Seq<char>,
    pub email: Seq<char>,
    pub gpg: Seq<char>,
    pub ssh: Seq<char>,
}

impl View for Author {
    type V = AuthorView;

    open spec fn view(&self) -> AuthorView {
        AuthorView { name: self.name@, email: self.email@, gpg: self.gpg@, ssh: self.ssh@ }
    }
}

impl Clone for Author {
    fn clone(&self) -> (copy: Author)
        ensures
            copy == *self,
    {
        Author {
            name: self.name.clone(),
            email: self.email.clone(),
            gpg: self.gpg.clone(),
            ssh: self.ssh.clone(),
        }
    }
}

impl PartialEq for Author {
    fn eq(&self, other: &Author) -> (same: bool) {
        self.name == other.name && self.email == other.email && self.gpg == other.gpg && self.ssh
            == other.ssh
    }
}

impl vstd::std_specs::cmp::PartialEqSpecImpl for Author {
    open spec fn obeys_eq_spec() -> bool {
        true
    }

    /// Two authors are equal where each attribute holds the same characters.
    open spec fn eq_spec(&self, other: &Author) -> bool {
        self@ == other@
    }
}

/// Why a roster entry gives no author.
#[derive(Clone, Copy, Debug, PartialEq, Eq, Structural)]
pub enum ParseError {
    /// The first field is blank.
    MissingName,
    /// The second field is absent or blank.
    MissingEmailSeed,
    /// The second field holds no `@`, and no default domain is configured.
    MissingDomain,
}

impl ParseError {
    /// The words that describe the error.
    pub open spec fn text(self) -> Seq<char> {
        match self {
            ParseError::MissingName => "missing name"@,
            ParseError::MissingEmailSeed => "missing email seed"@,
            ParseError::MissingDomain => "missing domain"@,
        }
    }

    /// Describes the error in words.
    pub fn message(&self) -> (m: &'static str)
        ensures
            m@ == self.text(),
    {
        match self {
            ParseError::MissingName => "missing name",
            ParseError::MissingEmailSeed => "missing email seed",
            ParseError::MissingDomain => "missing domain",
        }
    }
}

/// Reads authors from roster entries.
pub struct AuthorParser {
    /// The domain that completes an address given as a local part only.
    pub domain: Option<String>,
}

impl View for AuthorParser {
    type V = Option<Seq<char>>;

    open spec fn view(&self) -> Option<Seq<char>> {
        match self.domain {
            Some(d) => Some(d@),
            None => None,
        }
    }
}

impl AuthorView {
    /// What every parsed author satisfies: it has a name, and its address
    /// holds an `@`.
    pub open spec fn well_formed(self) -> bool {
        self.name.len() > 0 && self.email.contains('@')
    }

    /// The part of the rendering that every author has: name, then the
    /// address in angle brackets.
    pub open spec fn identity(self) -> Seq<char> {
        self.name + " <"@ + self.email + ">"@
    }

    /// The note on the GPG key; empty where the author has none.
    pub open spec fn gpg_note(self) -> Seq<char> {
        if self.gpg.len() > 0 {
            " gpg:"@ + self.gpg
        } else {
            Seq::empty()
        }
    }

    /// The note on the SSH key; empty where the author has none.
    pub open spec fn ssh_note(self) -> Seq<char> {
        if self.ssh.len() > 0 {
            " ssh:"@ + self.ssh
        } else {
            Seq::empty()
        }
    }

    /// The author on one line.
    pub open spec fn rendered(self) -> Seq<char> {
        self.identity() + self.gpg_note() + self.ssh_note()
    }
}

impl Author {
    /// Renders the author on one line: the name, the address in angle
    /// brackets, then a note for each signing key that the author has, the
    /// GPG key before the SSH key.
    pub fn display(&self) -> (line: String)
        ensures
            line@ == self@.rendered(),
            self@.identity().is_prefix_of(line@),
    {
        let mut line = self.name.clone();
        line.append(" <");
        line.append(self.email.as_str());
        line.append(">");
        if !self.gpg.as_str().is_empty() {
            line.append(" gpg:");
            line.append(self.gpg.as_str());
        }
        if !self.ssh.as_str().is_empty() {
            line.append(" ssh:");
            line.append(self.ssh.as_str());
        }
        proof {
            lemma_rendering_shape(self@);
        }
        line
    }
}

/// The address that the seed `seed` stands for under the default domain
/// `domain`: the seed itself where it holds an `@`, else the seed, an `@` and
/// the domain; none where a domain is needed and not configured.
pub open spec fn address(domain: Option<Seq<char>>, seed: Seq<char>) -> Option<Seq<char>> {
    if seed.contains('@') {
        Some(seed)
    } else {
        match domain {
            Some(d) => Some(seed + seq!['@'] + d),
            None => None,
        }
    }
}

/// What the entry `raw` gives under the default domain `domain`. The first
/// four fields are name, address seed, GPG key and SSH key; further fields
/// count for nothing.
pub open spec fn parsed(domain: Option<Seq<char>>, raw: Seq<char>) -> Result<
    AuthorView,
    ParseError,
> {
    let name = field(raw, 0);
    let seed = field(raw, 1);
    if name.len() == 0 {
        Err(ParseError::MissingName)
    } else if seed.len() == 0 {
        Err(ParseError::MissingEmailSeed)
    } else {
        match address(domain, seed) {
            Some(email) => Ok(AuthorView { name, email, gpg: field(raw, 2), ssh: field(raw, 3) }),
            None => Err(ParseError::MissingDomain),
        }
    }
}

/// A result of parsing as contracts see it.
pub open spec fn outcome(r: Result<Author, ParseError>) -> Result<AuthorView, ParseError> {
    match r {
        Ok(a) => Ok(a@),
        Err(e) => Err(e),
    }
}

impl AuthorParser {
    /// A parser with the default domain `domain`.
    pub fn new(domain: Option<String>) -> (p: AuthorParser)
        ensures
            p.domain == domain,
    {
        AuthorParser { domain }
    }

    /// Reads the author that the entry `raw` describes.
    pub fn parse(&self, raw: &str) -> (r: Result<Author, ParseError>)
        ensures
            outcome(r) == parsed(self@, raw@),
            r matches Ok(a) ==> a@.well_formed(),
    {
        let chars = chars_of(raw);
        let s = chars.as_slice();
        assert(s@.skip(0) == s@);
        let (name_at, after_name) = next_field(s, Some(0));
        if name_at.is_empty() {
            return Err(ParseError::MissingName);
        }
        let (seed_at, after_seed) = next_field(s, after_name);
        if seed_at.is_empty() {
            return Err(ParseError::MissingEmailSeed);
        }
        let mut email = raw.substring_char(seed_at.start, seed_at.end).to_owned();
        if !span_contains(s, seed_at, '@') {
            match &self.domain {
                Some(domain) => {
                    proof {
                        reveal_strlit("@");
                    }
                    assert("@"@ == seq!['@']);
                    email.append("@");
                    email.append(domain.as_str());
                    assert(email@[seed_at.end - seed_at.start] == '@');
                },
                None => {
                    return Err(ParseError::MissingDomain);
                },
            }
        }
        let (gpg_at, after_gpg) = next_field(s, after_seed);
        let (ssh_at, _) = next_field(s, after_gpg);
        assert(ssh_at.of(s@) == field(raw@, 3));
        Ok(
            Author {
                name: raw.substring_char(name_at.start, name_at.end).to_owned(),
                email,
                gpg: raw.substring_char(gpg_at.start, gpg_at.end).to_owned(),
                ssh: raw.substring_char(ssh_at.start, ssh_at.end).to_owned(),
            },
        )
    }
}

/// Every rendering starts with the name and the address in angle brackets;
/// what follows is the note on the GPG key, then the note on the SSH key, and
/// a note is there exactly where the author has that key.
pub proof fn lemma_rendering_shape(a: AuthorView)
    ensures
        a.identity().is_prefix_of(a.rendered()),
        a.rendered().skip(a.identity().len() as int) == a.gpg_note() + a.ssh_note(),
        a.gpg_note().len() > 0 <==> a.gpg.len() > 0,
        a.ssh_note().len() > 0 <==> a.ssh.len() > 0,
{
    reveal_strlit(" gpg:");
    reveal_strlit(" ssh:");
}

/// A seed that holds an `@` is the address as it stands: an entry with a name
/// and such a seed gives an author, with or without a default domain.
pub proof fn lemma_full_address_kept(domain: Option<Seq<char>>, raw: Seq<char>)
    requires
        field(raw, 0).len() > 0,
        field(raw, 1).contains('@'),
    ensures
        parsed(domain, raw) matches Ok(a) && a.name == field(raw, 0) && a.email == field(raw, 1),
{
}

/// A seed without an `@` is a local part: an entry with a name and such a
/// seed gives an author exactly where a default domain is configured, and
/// the address is then the seed, an `@` and the domain.
pub proof fn lemma_local_part_completed(domain: Option<Seq<char>>, raw: Seq<char>)
    requires
        field(raw, 0).len() > 0,
        field(raw, 1).len() > 0,
        !field(raw, 1).contains('@'),
    ensures
        parsed(domain, raw) is Ok <==> domain is Some,
        domain matches Some(d) ==> parsed(domain, raw) matches Ok(a) && a.email == field(raw, 1)
            + seq!['@'] + d,
        domain is None ==> parsed(domain, raw) == Err::<AuthorView, ParseError>(
            ParseError::MissingDomain,
        ),
{
}

/// Parsing is a function of the entry and the default domain: two runs on
/// the same entry under the same domain, by one parser or by two, end alike,
/// with the same error or with equal authors. Here `first` and `second` are
/// any results that `p.parse` and `q.parse` may give for `raw`.
pub proof fn lemma_parse_repeatable(
    p: AuthorParser,
    q: AuthorParser,
    raw: Seq<char>,
    first: Result<Author, ParseError>,
    second: Result<Author, ParseError>,
)
    requires
        p@ == q@,
        outcome(first) == parsed(p@, raw),
        outcome(second) == parsed(q@, raw),
    ensures
        outcome(first) == outcome(second),
        first matches Ok(a) ==> second matches Ok(b) && a.eq_spec(&b),
        first matches Err(e) ==> second == Err::<Author, ParseError>(e),
{
}

/// The key fields decide nothing: two entries with the same name and the
/// same seed both give an author or both fail, with the same error, and the
/// authors have the same name and address.
pub proof fn lemma_keys_do_not_decide(domain: Option<Seq<char>>, a: Seq<char>, b: Seq<char>)
    requires
        field(a, 0) == field(b, 0),
        field(a, 1) == field(b, 1),
    ensures
        parsed(domain, a) is Ok <==> parsed(domain, b) is Ok,
        parsed(domain, a) matches Err(e) ==> parsed(domain, b) == Err::<AuthorView, ParseError>(e),
        parsed(domain, a) matches Ok(x) ==> parsed(domain, b) matches Ok(y) && x.name == y.name
            && x.email == y.email,
{
}

/// A key whose field is absent or blank is empty in the author, and a key
/// whose field is there is that field, trimmed.
pub proof fn lemma_missing_key_is_empty(domain: Option<Seq<char>>, raw: Seq<char>)
    ensures
        parsed(domain, raw) matches Ok(a) ==> {
            &&& fields(raw).len() <= 2 || trim(fields(raw)[2]).len() == 0 ==> a.gpg.len() == 0
            &&& fields(raw).len() <= 3 || trim(fields(raw)[3]).len() == 0 ==> a.ssh.len() == 0
            &&& fields(raw).len() > 2 ==> a.gpg == trim(fields(raw)[2])
            &&& fields(raw).len() > 3 ==> a.ssh == trim(fields(raw)[3])
        },
{
}

/// An author that parsing gives has a name, and its address holds an `@`.
pub proof fn lemma_parsed_well_formed(domain: Option<Seq<char>>, raw: Seq<char>)
    ensures
        parsed(domain, raw) matches Ok(a) ==> a.well_formed(),
{
    if let Ok(a) = parsed(domain, raw) {
        let seed = field(raw, 1);
        if !seed.contains('@') {
            assert(a.email[seed.len() as int] == '@');
        }
    }
}

} // verus!
