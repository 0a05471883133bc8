//! Semantic versions: the data, their text form, their precedence, and the
//! numeric increments. Parsing and requirement matching are delegated to the
//! `semver` crate. The text form and the precedence are the rules of
//! Semantic Versioning, which that crate follows in its `Display` and its
//! `Ord`; each takes a few lines to state, so they are stated here in full
//! and the code is proved against them.

use crate::error::{Error, Result};
use crate::lines::join;
use crate::text::count_of;
use crate::requirement::{has_fitting_numbers, lemma_no_digit_fits, numbers_fit};
use vstd::prelude::*;
use vstd::string::StringExecFns;

verus! {

/// One dot-separated part of a pre-release or of build metadata.
#[derive(Debug, PartialEq, Eq)]
pub enum Identifier {
    /// A part made of digits only.
    Numeric(u64),
    /// A part with letters, digits or hyphens.
    AlphaNumeric(String),
}

/// A version number: `major.minor.patch`, a pre-release and build metadata.
#[derive(Debug)]
pub struct Version {
    pub major: u64,
    pub minor: u64,
    pub patch: u64,
    pub pre: Vec<Identifier>,
    pub build: Vec<Identifier>,
}

/// The mathematical value of an [`Identifier`].
pub enum IdentifierView {
    Numeric(nat),
    AlphaNumeric(Seq<char>),
}

/// The mathematical value of a [`Version`].
pub struct VersionView {
    pub major: nat,
    pub minor: nat,
    pub patch: nat,
    pub pre: Seq<IdentifierView>,
    pub build: Seq<IdentifierView>,
}

impl View for Identifier {
    type V = IdentifierView;

    open spec fn view(&self) -> IdentifierView {
        match self {
            Identifier::Numeric(n) => IdentifierView::Numeric(*n as nat),
            Identifier::AlphaNumeric(s) => IdentifierView::AlphaNumeric(s@),
        }
    }
}

/// The values of a list of identifiers.
pub open spec fn identifier_views(ids: Seq<Identifier>) -> Seq<IdentifierView> {
    ids.map_values(|i: Identifier| i@)
}

impl View for Version {
    type V = VersionView;

    open spec fn view(&self) -> VersionView {
        VersionView {
            major: self.major as nat,
            minor: self.minor as nat,
            patch: self.patch as nat,
            pre: identifier_views(self.pre@),
            build: identifier_views(self.build@),
        }
    }
}

/// The character for the digit `d`.
pub open spec fn digit_char(d: nat) -> char
    recommends
        d < 10,
{
    ((48 + d) as u8) as char
}

/// The decimal digits of `n`, without leading zeros.
pub open spec fn decimal(n: nat) -> Seq<char>
    decreases n,
{
    if n < 10 {
        seq![digit_char(n)]
    } else {
        decimal(n / 10).push(digit_char(n % 10))
    }
}

/// The text of one identifier.
pub open spec fn identifier_text(i: IdentifierView) -> Seq<char> {
    match i {
        IdentifierView::Numeric(n) => decimal(n),
        IdentifierView::AlphaNumeric(s) => s,
    }
}

/// The texts of the identifiers, joined by dots.
pub open spec fn identifiers_text(ids: Seq<IdentifierView>) -> Seq<char> {
    join(ids.map_values(|i: IdentifierView| identifier_text(i)), seq!['.'])
}

/// The text of a version: `major.minor.patch`, then `-` and the pre-release
/// if there is one, then `+` and the build metadata if there is any.
pub open spec fn version_text(v: VersionView) -> Seq<char> {
    decimal(v.major) + seq!['.'] + decimal(v.minor) + seq!['.'] + decimal(v.patch) + (if v.pre.len()
        > 0 {
        seq!['-'] + identifiers_text(v.pre)
    } else {
        seq![]
    }) + (if v.build.len() > 0 {
        seq!['+'] + identifiers_text(v.build)
    } else {
        seq![]
    })
}

/// Appends the decimal digits of `n` to `out`.
pub fn push_decimal(out: &mut String, n: u64)
    ensures
        final(out)@ == old(out)@ + decimal(n as nat),
    decreases n,
{
    if n >= 10 {
        push_decimal(out, n / 10);
    }
    let d: u8 = (n % 10) as u8;
    out.push((48u8 + d) as char);
    proof {
        if n >= 10 {
            assert(old(out)@ + decimal(n as nat / 10).push(digit_char(n as nat % 10)) =~= (old(out)@
                + decimal(n as nat / 10)).push(digit_char(n as nat % 10)));
        } else {
            assert(old(out)@ + seq![digit_char(n as nat)] =~= old(out)@.push(digit_char(n as nat)));
        }
    }
}

impl Identifier {
    /// Whether this identifier is made of digits only.
    pub fn is_numeric(&self) -> (r: bool)
        ensures
            r == (self@ is Numeric),
    {
        match self {
            Identifier::Numeric(_) => true,
            Identifier::AlphaNumeric(_) => false,
        }
    }

    /// A copy of this identifier.
    pub fn duplicate(&self) -> (r: Identifier)
        ensures
            r@ == self@,
    {
        match self {
            Identifier::Numeric(n) => Identifier::Numeric(*n),
            Identifier::AlphaNumeric(s) => Identifier::AlphaNumeric(s.clone()),
        }
    }

    /// The text of this identifier.
    pub fn to_string(&self) -> (r: String)
        ensures
            r@ == identifier_text(self@),
    {
        match self {
            Identifier::Numeric(n) => {
                let mut out = String::new();
                push_decimal(&mut out, *n);
                out
            },
            Identifier::AlphaNumeric(s) => s.clone(),
        }
    }
}

impl Clone for Identifier {
    fn clone(&self) -> (r: Identifier)
        ensures
            r@ == self@,
    {
        self.duplicate()
    }
}

/// A copy of a list of identifiers.
pub fn duplicate_identifiers(ids: &Vec<Identifier>) -> (r: Vec<Identifier>)
    ensures
        identifier_views(r@) == identifier_views(ids@),
{
    let mut out: Vec<Identifier> = Vec::new();
    let mut i: usize = 0;
    while i < ids.len()
        invariant
            i <= ids.len(),
            identifier_views(out@) == identifier_views(ids@).take(i as int),
        decreases ids.len() - i,
    {
        let c = ids[i].duplicate();
        proof {
            assert(identifier_views(out@.push(c)) =~= identifier_views(out@).push(c@));
            assert(identifier_views(ids@).take(i + 1) =~= identifier_views(ids@).take(
                i as int,
            ).push(ids@[i as int]@));
        }
        out.push(c);
        i += 1;
    }
    assert(identifier_views(ids@).take(ids@.len() as int) =~= identifier_views(ids@));
    out
}

/// Appends the texts of `ids`, joined by dots, to `out`.
fn push_identifiers(out: &mut String, ids: &Vec<Identifier>)
    ensures
        final(out)@ == old(out)@ + identifiers_text(identifier_views(ids@)),
{
    let ghost all = identifier_views(ids@).map_values(|i: IdentifierView| identifier_text(i));
    let mut i: usize = 0;
    while i < ids.len()
        invariant
            i <= ids.len(),
            all == identifier_views(ids@).map_values(|i: IdentifierView| identifier_text(i)),
            out@ == old(out)@ + join(all.take(i as int), seq!['.']),
        decreases ids.len() - i,
    {
        proof {
            crate::lines::lemma_join_push(all.take(i as int), seq!['.'], all[i as int]);
            assert(all.take(i + 1) =~= all.take(i as int).push(all[i as int]));
            assert(all[i as int] == identifier_text(ids@[i as int]@));
        }
        let ghost before = out@;
        if i > 0 {
            out.push('.');
        }
        let t = ids[i].to_string();
        out.append(t.as_str());
        proof {
            if i > 0 {
                assert(out@ =~= old(out)@ + (join(all.take(i as int), seq!['.']) + seq!['.']
                    + all[i as int]));
            } else {
                assert(join(all.take(0), seq!['.']) =~= Seq::<char>::empty());
                assert(out@ =~= old(out)@ + all[i as int]);
            }
        }
        i += 1;
    }
    assert(all.take(ids@.len() as int) =~= all);
}

impl Version {
    /// The version `major.minor.patch`, with no pre-release and no build
    /// metadata.
    pub fn new(major: u64, minor: u64, patch: u64) -> (r: Version)
        ensures
            r@ == (VersionView {
                major: major as nat,
                minor: minor as nat,
                patch: patch as nat,
                pre: seq![],
                build: seq![],
            }),
    {
        let r = Version { major, minor, patch, pre: Vec::new(), build: Vec::new() };
        assert(r@.pre =~= seq![]);
        assert(r@.build =~= seq![]);
        r
    }

    /// A copy of this version.
    pub fn duplicate(&self) -> (r: Version)
        ensures
            r@ == self@,
    {
        Version {
            major: self.major,
            minor: self.minor,
            patch: self.patch,
            pre: duplicate_identifiers(&self.pre),
            build: duplicate_identifiers(&self.build),
        }
    }

    /// Whether this version has a pre-release.
    pub fn is_prerelease(&self) -> (r: bool)
        ensures
            r == (self@.pre.len() > 0),
    {
        self.pre.len() > 0
    }

    /// The text of this version.
    pub fn to_string(&self) -> (r: String)
        ensures
            r@ == version_text(self@),
    {
        let mut out = String::new();
        push_decimal(&mut out, self.major);
        out.push('.');
        push_decimal(&mut out, self.minor);
        out.push('.');
        push_decimal(&mut out, self.patch);
        let ghost core = out@;
        assert(core =~= decimal(self@.major) + seq!['.'] + decimal(self@.minor) + seq!['.']
            + decimal(self@.patch));
        if self.pre.len() > 0 {
            out.push('-');
            push_identifiers(&mut out, &self.pre);
            assert(out@ =~= core + (seq!['-'] + identifiers_text(self@.pre)));
        } else {
            assert(out@ =~= core + Seq::<char>::empty());
        }
        let ghost middle = out@;
        if self.build.len() > 0 {
            out.push('+');
            push_identifiers(&mut out, &self.build);
            assert(out@ =~= middle + (seq!['+'] + identifiers_text(self@.build)));
        } else {
            assert(out@ =~= middle + Seq::<char>::empty());
        }
        out
    }
}

impl Clone for Version {
    fn clone(&self) -> (r: Version)
        ensures
            r@ == self@,
    {
        self.duplicate()
    }
}

/// The most hyphens that one identifier of a version may have.
pub const MAX_HYPHENS: usize = 255;

/// The number of hyphens that the identifier at the end of `text` has so
/// far. An identifier ends at a dot and at a plus sign. The first hyphen of
/// a text, where no plus sign stands before it, belongs to no identifier:
/// it opens the pre-release.
pub open spec fn joined(text: Seq<char>) -> nat
    decreases text.len(),
{
    if text.len() == 0 {
        0
    } else {
        let c = text.last();
        let before = text.drop_last();
        if c == '.' || c == '+' {
            0
        } else if c == '-' && (count_of(before, '-') > 0 || count_of(before, '+') > 0) {
            joined(before) + 1
        } else {
            joined(before)
        }
    }
}

/// Whether no identifier of `text` has more than [`MAX_HYPHENS`] hyphens.
pub open spec fn hyphens_fit(text: Seq<char>) -> bool {
    forall|k: int| 0 <= k <= text.len() ==> joined(#[trigger] text.take(k)) <= MAX_HYPHENS
}

/// Whether no identifier of `text` has more than [`MAX_HYPHENS`] hyphens.
pub fn has_few_hyphens(text: &str) -> (r: bool)
    ensures
        r == hyphens_fit(text@),
{
    let chars = crate::text::to_chars(text);
    let mut found: usize = 0;
    let mut opened: bool = false;
    let mut i: usize = 0;
    assert(chars@.take(0) =~= Seq::<char>::empty());
    while i < chars.len()
        invariant
            i <= chars.len(),
            chars@ == text@,
            found == joined(chars@.take(i as int)),
            found <= i,
            opened == (count_of(chars@.take(i as int), '-') > 0 || count_of(
                chars@.take(i as int),
                '+',
            ) > 0),
            forall|k: int| 0 <= k <= i ==> joined(#[trigger] chars@.take(k)) <= MAX_HYPHENS,
        decreases chars.len() - i,
    {
        proof {
            assert(chars@.take(i + 1).drop_last() =~= chars@.take(i as int));
            assert(chars@.take(i + 1).last() == chars@[i as int]);
        }
        let c = chars[i];
        if c == '.' || c == '+' {
            found = 0;
        } else if c == '-' && opened {
            found += 1;
        }
        if c == '-' || c == '+' {
            opened = true;
        }
        i += 1;
        if found > MAX_HYPHENS {
            return false;
        }
    }
    true
}

/// Whether `req` can be read as a requirement: `semver` can take each of
/// its numbers, and accepts it. A requirement with a number that `semver`
/// cannot take is one that it does not read: it stops on the number.
pub open spec fn requirement_reads(req: Seq<char>) -> bool {
    numbers_fit(req) && requirement_parses(req)
}

/// Whether `req` is the requirement that any version meets: it equals the
/// requirement written `*`.
pub open spec fn is_wildcard(req: Seq<char>) -> bool {
    numbers_fit(req) && requirement_equals(req, "*"@)
}

/// What `semver::Version::parse` makes of `text`: the version it reads, or
/// `None` where it reports an error.
pub uninterp spec fn semver_parse(text: Seq<char>) -> Option<VersionView>;

/// Whether `semver::VersionReq::parse` accepts `req` as a requirement.
pub uninterp spec fn requirement_parses(req: Seq<char>) -> bool;

/// Whether the requirement that `semver::VersionReq::parse` reads from `req`
/// is met by the version `v`, as `semver::VersionReq::matches` decides it.
pub uninterp spec fn requirement_admits(req: Seq<char>, v: VersionView) -> bool;

/// Whether `semver::VersionReq::parse` reads `a` and `b`, and the two
/// requirements it reads are equal by the `==` of `VersionReq`.
pub uninterp spec fn requirement_equals(a: Seq<char>, b: Seq<char>) -> bool;

/// Reads `a` and `b` with `semver::VersionReq::parse` and compares the two
/// requirements with `==`; false where either cannot be read. The parser
/// unwraps each number of a version as a `u64` and adds one to the number
/// that it raises, so requirements with a number that does not fit or
/// cannot be raised are left out.
#[verifier::external_body]
pub(crate) fn same_requirement(a: &str, b: &str) -> (r: bool)
    requires
        numbers_fit(a@),
        numbers_fit(b@),
    ensures
        r == requirement_equals(a@, b@),
{
    match (semver::VersionReq::parse(a), semver::VersionReq::parse(b)) {
        (Ok(x), Ok(y)) => x == y,
        _ => false,
    }
}

/// Calls `semver::Version::parse` on `text` and copies the fields of what it
/// returns. The result is `Ok` exactly where the crate accepts the text, and
/// then holds the version it read. The parser stops on an identifier of
/// more than 256 parts joined by hyphens, so texts with such an identifier
/// are left out.
#[verifier::external_body]
pub(crate) fn parse_version(text: &str) -> (r: core::result::Result<Version, semver::SemVerError>)
    requires
        hyphens_fit(text@),
    ensures
        match r {
            Ok(v) => semver_parse(text@) == Some(v@),
            Err(_) => semver_parse(text@).is_none(),
        },
{
    let from = |ids: Vec<semver::Identifier>| ids.into_iter().map(|i| match i {
        semver::Identifier::Numeric(n) => Identifier::Numeric(n),
        semver::Identifier::AlphaNumeric(s) => Identifier::AlphaNumeric(s),
    }).collect::<Vec<_>>();
    let v = semver::Version::parse(text)?;
    let (pre, build) = (from(v.pre), from(v.build));
    Ok(Version { major: v.major, minor: v.minor, patch: v.patch, pre, build })
}

/// Calls `semver::VersionReq::parse` on `req` and, where that succeeds,
/// `VersionReq::matches` on a copy of `version`. The result is `Ok` exactly
/// where the requirement parses, and then says whether the version meets it.
/// The parser unwraps each number of a version as a `u64` and adds one to
/// the number that it raises, so requirements with a number that does not
/// fit or cannot be raised are left out.
#[verifier::external_body]
pub(crate) fn requirement_matches(req: &str, version: &Version) -> (r: core::result::Result<
    bool,
    semver::ReqParseError,
>)
    requires
        numbers_fit(req@),
    ensures
        r is Ok <==> requirement_parses(req@),
        r is Ok ==> r->Ok_0 == requirement_admits(req@, version@),
{
    let to = |ids: &Vec<Identifier>| ids.iter().map(|i| match i {
        Identifier::Numeric(n) => semver::Identifier::Numeric(*n),
        Identifier::AlphaNumeric(s) => semver::Identifier::AlphaNumeric(s.clone()),
    }).collect::<Vec<_>>();
    let v = semver::Version {
        major: version.major,
        minor: version.minor,
        patch: version.patch,
        pre: to(&version.pre),
        build: to(&version.build),
    };
    Ok(semver::VersionReq::parse(req)?.matches(&v))
}

impl Version {
    /// Reads a version from `text`. The version is there for every text
    /// that `semver` reads. A text with an identifier of more than
    /// [`MAX_HYPHENS`] hyphens, on which `semver` would stop, is an error,
    /// as is one that it rejects.
    pub fn parse(text: &str) -> (r: Result<Version>)
        ensures
            match r {
                Ok(v) => hyphens_fit(text@) && semver_parse(text@) == Some(v@),
                Err(Error::TooManyHyphens(given)) => !hyphens_fit(text@) && given@ == text@,
                Err(e) => hyphens_fit(text@) && semver_parse(text@).is_none() && e is Version,
            },
    {
        if !has_few_hyphens(text) {
            return Err(Error::TooManyHyphens(String::from_str(text)));
        }
        match parse_version(text) {
            Ok(v) => Ok(v),
            Err(e) => Err(Error::Version(e)),
        }
    }

    /// Whether this version meets the requirement written in `req`. The
    /// answer is there for every requirement that `semver` reads. A
    /// requirement with a number that `semver` cannot take, on which it
    /// would stop, is an error, as is one that it rejects.
    pub fn meets(&self, req: &str) -> (r: Result<bool>)
        ensures
            match r {
                Ok(b) => requirement_reads(req@) && b == requirement_admits(req@, self@),
                Err(Error::NumberTooLarge(given)) => !numbers_fit(req@) && given@ == req@,
                Err(e) => numbers_fit(req@) && !requirement_parses(req@) && e is Semver,
            },
    {
        if !has_fitting_numbers(req) {
            return Err(Error::NumberTooLarge(String::from_str(req)));
        }
        match requirement_matches(req, self) {
            Ok(b) => Ok(b),
            Err(e) => Err(Error::Semver(e)),
        }
    }
}

/// Whether `req` is the requirement that any version meets.
pub fn asks_for_any(req: &str) -> (r: bool)
    ensures
        r == is_wildcard(req@),
{
    if !has_fitting_numbers(req) {
        return false;
    }
    proof {
        reveal_strlit("*");
        lemma_no_digit_fits("*"@);
    }
    same_requirement(req, "*")
}

/// Whether the text `a` comes before `b`: at the first place where they
/// differ `a` has the smaller character, or `a` ends there and `b` goes on.
pub open spec fn text_before(a: Seq<char>, b: Seq<char>) -> bool
    decreases a.len(),
{
    if b.len() == 0 {
        false
    } else if a.len() == 0 {
        true
    } else if a[0] != b[0] {
        (a[0] as u32) < (b[0] as u32)
    } else {
        text_before(a.drop_first(), b.drop_first())
    }
}

/// Whether the identifier `a` comes before `b`: numbers by value, texts as
/// texts, and every number before every text.
pub open spec fn identifier_before(a: IdentifierView, b: IdentifierView) -> bool {
    match (a, b) {
        (IdentifierView::Numeric(x), IdentifierView::Numeric(y)) => x < y,
        (IdentifierView::Numeric(_), IdentifierView::AlphaNumeric(_)) => true,
        (IdentifierView::AlphaNumeric(_), IdentifierView::Numeric(_)) => false,
        (IdentifierView::AlphaNumeric(s), IdentifierView::AlphaNumeric(t)) => text_before(s, t),
    }
}

/// Whether the pre-release `a` comes before `b`: at the first place where
/// they differ `a` has the earlier identifier, or `a` ends there and `b`
/// goes on.
pub open spec fn identifiers_before(a: Seq<IdentifierView>, b: Seq<IdentifierView>) -> bool
    decreases a.len(),
{
    if b.len() == 0 {
        false
    } else if a.len() == 0 {
        true
    } else if a[0] != b[0] {
        identifier_before(a[0], b[0])
    } else {
        identifiers_before(a.drop_first(), b.drop_first())
    }
}

/// Whether the version `a` has lower precedence than `b`. The numbers decide
/// first; with equal numbers a pre-release comes before the release, and two
/// pre-releases go by their identifiers. Build metadata plays no part.
pub open spec fn precedes(a: VersionView, b: VersionView) -> bool {
    if a.major != b.major {
        a.major < b.major
    } else if a.minor != b.minor {
        a.minor < b.minor
    } else if a.patch != b.patch {
        a.patch < b.patch
    } else if a.pre.len() == 0 {
        false
    } else if b.pre.len() == 0 {
        true
    } else {
        identifiers_before(a.pre, b.pre)
    }
}

/// How two things stand to each other.
#[derive(Debug, Clone, Copy, PartialEq, Eq, Structural)]
pub enum Order {
    Before,
    Same,
    After,
}

/// Compares two texts character by character.
pub fn order_texts(a: &Vec<char>, b: &Vec<char>) -> (r: Order)
    ensures
        r == Order::Before <==> text_before(a@, b@),
        r == Order::Same <==> a@ == b@,
{
    let mut i: usize = 0;
    proof {
        assert(a@.skip(0) =~= a@ && b@.skip(0) =~= b@);
        assert(a@.take(0) =~= b@.take(0));
    }
    while i < a.len() && i < b.len()
        invariant
            i <= a.len(),
            i <= b.len(),
            a@.take(i as int) == b@.take(i as int),
            text_before(a@, b@) == text_before(a@.skip(i as int), b@.skip(i as int)),
        decreases a.len() - i,
    {
        proof {
            let x = a@.skip(i as int);
            let y = b@.skip(i as int);
            assert(x.drop_first() =~= a@.skip(i + 1));
            assert(y.drop_first() =~= b@.skip(i + 1));
            assert(x[0] == a@[i as int] && y[0] == b@[i as int]);
        }
        if a[i] != b[i] {
            assert(a@.take(i + 1)[i as int] != b@.take(i + 1)[i as int]);
            assert(a@ != b@);
            let ca: char = a[i];
            let cb: char = b[i];
            return if (ca as u32) < (cb as u32) {
                Order::Before
            } else {
                Order::After
            };
        }
        assert(a@.take(i + 1) =~= a@.take(i as int).push(a@[i as int]));
        assert(b@.take(i + 1) =~= b@.take(i as int).push(b@[i as int]));
        i += 1;
    }
    proof {
        assert(a@.skip(0) =~= a@ && b@.skip(0) =~= b@);
        assert(a@.take(a@.len() as int) =~= a@);
        assert(b@.take(b@.len() as int) =~= b@);
        if a@ == b@ {
            assert(a@.len() == b@.len());
        }
    }
    if i < b.len() {
        assert(a@.take(i as int).len() != b@.len());
        Order::Before
    } else if i < a.len() {
        Order::After
    } else {
        Order::Same
    }
}

impl Identifier {
    /// How this identifier stands to `other`.
    pub fn order(&self, other: &Identifier) -> (r: Order)
        ensures
            r == Order::Before <==> identifier_before(self@, other@),
            r == Order::Same <==> self@ == other@,
    {
        match (self, other) {
            (Identifier::Numeric(x), Identifier::Numeric(y)) => {
                if *x < *y {
                    Order::Before
                } else if *x == *y {
                    Order::Same
                } else {
                    Order::After
                }
            },
            (Identifier::Numeric(_), Identifier::AlphaNumeric(_)) => Order::Before,
            (Identifier::AlphaNumeric(_), Identifier::Numeric(_)) => Order::After,
            (Identifier::AlphaNumeric(s), Identifier::AlphaNumeric(t)) => {
                let a = crate::text::to_chars(s.as_str());
                let b = crate::text::to_chars(t.as_str());
                order_texts(&a, &b)
            },
        }
    }
}

/// Compares two pre-releases identifier by identifier.
fn order_identifiers(a: &Vec<Identifier>, b: &Vec<Identifier>) -> (r: Order)
    ensures
        r == Order::Before <==> identifiers_before(identifier_views(a@), identifier_views(b@)),
        r == Order::Same <==> identifier_views(a@) == identifier_views(b@),
{
    let ghost x = identifier_views(a@);
    let ghost y = identifier_views(b@);
    let mut i: usize = 0;
    proof {
        assert(x.skip(0) =~= x && y.skip(0) =~= y);
        assert(x.take(0) =~= y.take(0));
    }
    while i < a.len() && i < b.len()
        invariant
            i <= a.len(),
            i <= b.len(),
            x == identifier_views(a@),
            y == identifier_views(b@),
            x.take(i as int) == y.take(i as int),
            identifiers_before(x, y) == identifiers_before(x.skip(i as int), y.skip(i as int)),
        decreases a.len() - i,
    {
        proof {
            assert(x.skip(i as int).drop_first() =~= x.skip(i + 1));
            assert(y.skip(i as int).drop_first() =~= y.skip(i + 1));
            assert(x.skip(i as int)[0] == a@[i as int]@ && y.skip(i as int)[0] == b@[i as int]@);
        }
        let o = a[i].order(&b[i]);
        match o {
            Order::Same => {},
            _ => {
                assert(x.take(i + 1)[i as int] != y.take(i + 1)[i as int]);
                assert(x != y);
                return o;
            },
        }
        assert(x.take(i + 1) =~= x.take(i as int).push(x[i as int]));
        assert(y.take(i + 1) =~= y.take(i as int).push(y[i as int]));
        i += 1;
    }
    proof {
        assert(x.skip(0) =~= x && y.skip(0) =~= y);
        assert(x.take(x.len() as int) =~= x);
        assert(y.take(y.len() as int) =~= y);
        if x == y {
            assert(x.len() == y.len());
        }
    }
    if i < b.len() {
        assert(x.take(i as int).len() != y.len());
        Order::Before
    } else if i < a.len() {
        Order::After
    } else {
        Order::Same
    }
}

impl Version {
    /// Whether this version has lower precedence than `other`.
    pub fn less_than(&self, other: &Version) -> (r: bool)
        ensures
            r == precedes(self@, other@),
    {
        if self.major != other.major {
            self.major < other.major
        } else if self.minor != other.minor {
            self.minor < other.minor
        } else if self.patch != other.patch {
            self.patch < other.patch
        } else if self.pre.len() == 0 {
            false
        } else if other.pre.len() == 0 {
            true
        } else {
            match order_identifiers(&self.pre, &other.pre) {
                Order::Before => true,
                _ => false,
            }
        }
    }
}

proof fn lemma_characters_differ(x: char, y: char)
    requires
        x != y,
    ensures
        (x as u32) != (y as u32),
{
}

pub proof fn lemma_text_one_way(a: Seq<char>, b: Seq<char>)
    requires
        text_before(a, b),
    ensures
        !text_before(b, a),
    decreases a.len(),
{
    if a.len() > 0 && b.len() > 0 && a[0] == b[0] {
        lemma_text_one_way(a.drop_first(), b.drop_first());
    }
}

pub proof fn lemma_text_either_way(a: Seq<char>, b: Seq<char>)
    requires
        a != b,
    ensures
        text_before(a, b) || text_before(b, a),
    decreases a.len(),
{
    if a.len() > 0 && b.len() > 0 {
        if a[0] == b[0] {
            if a.drop_first() == b.drop_first() {
                assert(a =~= seq![a[0]] + a.drop_first());
                assert(b =~= seq![b[0]] + b.drop_first());
            }
            lemma_text_either_way(a.drop_first(), b.drop_first());
        } else {
            lemma_characters_differ(a[0], b[0]);
        }
    } else if a.len() == 0 && b.len() == 0 {
        assert(a =~= b);
    }
}

pub proof fn lemma_text_chain(a: Seq<char>, b: Seq<char>, c: Seq<char>)
    requires
        text_before(a, b),
        text_before(b, c),
    ensures
        text_before(a, c),
    decreases a.len(),
{
    if a.len() > 0 && b.len() > 0 && c.len() > 0 && a[0] == b[0] && b[0] == c[0] {
        lemma_text_chain(a.drop_first(), b.drop_first(), c.drop_first());
    }
}

proof fn lemma_identifier_one_way(a: IdentifierView, b: IdentifierView)
    requires
        identifier_before(a, b),
    ensures
        !identifier_before(b, a),
{
    match (a, b) {
        (IdentifierView::AlphaNumeric(s), IdentifierView::AlphaNumeric(t)) => {
            lemma_text_one_way(s, t);
        },
        _ => {},
    }
}

proof fn lemma_identifier_either_way(a: IdentifierView, b: IdentifierView)
    requires
        a != b,
    ensures
        identifier_before(a, b) || identifier_before(b, a),
{
    match (a, b) {
        (IdentifierView::AlphaNumeric(s), IdentifierView::AlphaNumeric(t)) => {
            lemma_text_either_way(s, t);
        },
        _ => {},
    }
}

proof fn lemma_identifier_chain(a: IdentifierView, b: IdentifierView, c: IdentifierView)
    requires
        identifier_before(a, b),
        identifier_before(b, c),
    ensures
        identifier_before(a, c),
{
    match (a, b, c) {
        (
            IdentifierView::AlphaNumeric(s),
            IdentifierView::AlphaNumeric(t),
            IdentifierView::AlphaNumeric(u),
        ) => {
            lemma_text_chain(s, t, u);
        },
        _ => {},
    }
}

proof fn lemma_identifiers_one_way(a: Seq<IdentifierView>, b: Seq<IdentifierView>)
    requires
        identifiers_before(a, b),
    ensures
        !identifiers_before(b, a),
    decreases a.len(),
{
    if a.len() > 0 && b.len() > 0 {
        if a[0] == b[0] {
            lemma_identifiers_one_way(a.drop_first(), b.drop_first());
        } else {
            lemma_identifier_one_way(a[0], b[0]);
        }
    }
}

proof fn lemma_identifiers_either_way(a: Seq<IdentifierView>, b: Seq<IdentifierView>)
    requires
        a != b,
    ensures
        identifiers_before(a, b) || identifiers_before(b, a),
    decreases a.len(),
{
    if a.len() > 0 && b.len() > 0 {
        if a[0] == b[0] {
            if a.drop_first() == b.drop_first() {
                assert(a =~= seq![a[0]] + a.drop_first());
                assert(b =~= seq![b[0]] + b.drop_first());
            }
            lemma_identifiers_either_way(a.drop_first(), b.drop_first());
        } else {
            lemma_identifier_either_way(a[0], b[0]);
        }
    } else if a.len() == 0 && b.len() == 0 {
        assert(a =~= b);
    }
}

proof fn lemma_identifiers_chain(
    a: Seq<IdentifierView>,
    b: Seq<IdentifierView>,
    c: Seq<IdentifierView>,
)
    requires
        identifiers_before(a, b),
        identifiers_before(b, c),
    ensures
        identifiers_before(a, c),
    decreases a.len(),
{
    if a.len() > 0 && b.len() > 0 && c.len() > 0 {
        if a[0] == b[0] && b[0] == c[0] {
            lemma_identifiers_chain(a.drop_first(), b.drop_first(), c.drop_first());
        } else if a[0] != b[0] && b[0] != c[0] {
            lemma_identifier_chain(a[0], b[0], c[0]);
            lemma_identifier_one_way(a[0], b[0]);
        }
    }
}

/// Precedence runs one way only: of two versions at most one comes before
/// the other.
pub proof fn lemma_precedence_one_way(a: VersionView, b: VersionView)
    requires
        precedes(a, b),
    ensures
        !precedes(b, a),
{
    if a.major == b.major && a.minor == b.minor && a.patch == b.patch && a.pre.len() > 0
        && b.pre.len() > 0 {
        lemma_identifiers_one_way(a.pre, b.pre);
    }
}

/// Precedence is transitive.
pub proof fn lemma_precedence_chain(a: VersionView, b: VersionView, c: VersionView)
    requires
        precedes(a, b),
        precedes(b, c),
    ensures
        precedes(a, c),
{
    if a.major == b.major && a.minor == b.minor && a.patch == b.patch && b.major == c.major
        && b.minor == c.minor && b.patch == c.patch && a.pre.len() > 0 && b.pre.len() > 0
        && c.pre.len() > 0 {
        lemma_identifiers_chain(a.pre, b.pre, c.pre);
    }
}

/// A version that does not come before a second, which does not come before
/// a third, does not come before the third either.
pub proof fn lemma_precedence_ranks(a: VersionView, b: VersionView, c: VersionView)
    requires
        !precedes(a, b),
        !precedes(b, c),
    ensures
        !precedes(a, c),
{
    if precedes(a, c) {
        if a.major == b.major && a.minor == b.minor && a.patch == b.patch {
            if a.pre == b.pre {
            } else if a.pre.len() > 0 && b.pre.len() > 0 {
                lemma_identifiers_either_way(a.pre, b.pre);
                assert(identifiers_before(b.pre, a.pre));
                if b.major == c.major && b.minor == c.minor && b.patch == c.patch && c.pre.len()
                    > 0 {
                    lemma_identifiers_chain(b.pre, a.pre, c.pre);
                }
            } else if a.pre.len() == 0 && b.pre.len() == 0 {
                assert(a.pre =~= b.pre);
            }
        }
    }
}

} // verus!
