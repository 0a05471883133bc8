//! Checks on a package's metadata that are made before it is published.

use crate::error::{Error, Result};
use crate::package::Package;
use crate::text::{starts_with, to_chars};
use vstd::prelude::*;
use vstd::string::StringExecFns;

verus! {

/// Whether `url::Url::parse` reads `text` as an absolute URL.
pub uninterp spec fn url_parses(text: Seq<char>) -> bool;

/// Calls `url::Url::parse` on `text` and says whether it succeeded.
#[verifier::external_body]
pub(crate) fn parses_as_url(text: &str) -> (r: bool)
    ensures
        r == url_parses(text@),
{
    url::Url::parse(text).is_ok()
}

/// Whether `c` is an ASCII letter or digit.
pub open spec fn is_alphanumeric(c: char) -> bool {
    ('0' <= c && c <= '9') || ('a' <= c && c <= 'z') || ('A' <= c && c <= 'Z')
}

/// Whether `keyword` may be used as a keyword: it starts with an ASCII
/// letter or digit and goes on with ASCII letters, digits, `_`, `-` or `+`.
pub open spec fn keyword_is_valid(keyword: Seq<char>) -> bool {
    &&& keyword.len() > 0
    &&& is_alphanumeric(keyword[0])
    &&& forall|i: int|
        1 <= i < keyword.len() ==> is_alphanumeric(#[trigger] keyword[i]) || keyword[i] == '_'
            || keyword[i] == '-' || keyword[i] == '+'
}

/// Whether `c` is an ASCII letter or digit.
fn alphanumeric(c: char) -> (r: bool)
    ensures
        r == is_alphanumeric(c),
{
    ('0' <= c && c <= '9') || ('a' <= c && c <= 'z') || ('A' <= c && c <= 'Z')
}

/// Whether `keyword` may be used as a keyword.
pub fn valid_keyword(keyword: &str) -> (r: bool)
    ensures
        r == keyword_is_valid(keyword@),
{
    let chars = to_chars(keyword);
    if chars.len() == 0 || !alphanumeric(chars[0]) {
        return false;
    }
    let mut i: usize = 1;
    while i < chars.len()
        invariant
            1 <= i <= chars.len(),
            chars@ == keyword@,
            forall|j: int|
                1 <= j < i ==> is_alphanumeric(#[trigger] chars@[j]) || chars@[j] == '_'
                    || chars@[j] == '-' || chars@[j] == '+',
        decreases chars.len() - i,
    {
        let c = chars[i];
        if !(alphanumeric(c) || c == '_' || c == '-' || c == '+') {
            return false;
        }
        i += 1;
    }
    true
}

/// The length of `text` in bytes.
pub open spec fn byte_length(text: Seq<char>) -> nat {
    vstd::utf8::encode_utf8(text).len()
}

/// The most bytes a description may have.
pub const MAX_DESCRIPTION_LEN: usize = 1000;

/// The most keywords a package may have.
pub const MAX_KEYWORDS: usize = 5;

/// The most bytes a keyword may have.
pub const MAX_KEYWORD_LEN: usize = 20;

/// What is wrong with the URL in `field`: it must begin with `http://` or
/// `https://`, and it must parse.
pub open spec fn url_problems(url: Option<Seq<char>>, field: Seq<char>) -> Seq<Seq<char>> {
    match url {
        None => seq![],
        Some(u) => (if !"http://"@.is_prefix_of(u) && !"https://"@.is_prefix_of(u) {
            seq![
                "URL for field `"@ + field + "` must begin with http:// or https:// (url: "@ + u
                    + ")"@,
            ]
        } else {
            seq![]
        }) + (if !url_parses(u) {
            seq!["`"@ + field + "` is not a valid url: `"@ + u + "`"@]
        } else {
            seq![]
        }),
    }
}

/// What is wrong with one keyword.
pub open spec fn keyword_problems(keyword: Seq<char>) -> Seq<Seq<char>> {
    if byte_length(keyword) > MAX_KEYWORD_LEN {
        seq!["Keyword is too long (max 20 characters): "@ + keyword]
    } else if !keyword_is_valid(keyword) {
        seq!["Keyword contains invalid characters: "@ + keyword]
    } else {
        seq![]
    }
}

/// What is wrong with the keywords, one after the other.
pub open spec fn keywords_problems(keywords: Seq<String>) -> Seq<Seq<char>>
    decreases keywords.len(),
{
    if keywords.len() == 0 {
        seq![]
    } else {
        keywords_problems(keywords.drop_last()) + keyword_problems(keywords.last()@)
    }
}

/// The text of an optional string.
pub open spec fn optional_text(s: Option<String>) -> Option<Seq<char>> {
    match s {
        Some(t) => Some(t@),
        None => None,
    }
}

/// Everything that is wrong with the metadata of `pkg`, in the order of the
/// checks: description and license there, description short enough, the
/// three URLs well formed, not too many keywords, each keyword short and
/// made of valid characters.
pub open spec fn problems_of(pkg: Package) -> Seq<Seq<char>> {
    (if pkg.description is None {
        seq!["'description' field should be set"@]
    } else {
        seq![]
    }) + (if pkg.license is None && pkg.license_file is None {
        seq!["either 'license' or 'license-file' field should be set"@]
    } else {
        seq![]
    }) + (if pkg.description is Some && byte_length(pkg.description->Some_0@)
        > MAX_DESCRIPTION_LEN {
        seq!["Description is too long (max 1000 characters)"@]
    } else {
        seq![]
    }) + url_problems(optional_text(pkg.homepage), "homepage"@) + url_problems(
        optional_text(pkg.documentation),
        "documentation"@,
    ) + url_problems(optional_text(pkg.repository), "repository"@) + (if pkg.keywords@.len()
        > MAX_KEYWORDS {
        seq!["Too many keywords (max 5 keywords)"@]
    } else {
        seq![]
    }) + keywords_problems(pkg.keywords@)
}

/// Adds to `problems` what is wrong with the URL in `field`.
pub fn validate_url(url: &Option<String>, field: &str, problems: &mut Vec<String>)
    ensures
        crate::lines::texts(final(problems)@) == crate::lines::texts(old(problems)@)
            + url_problems(optional_text(*url), field@),
{
    let ghost before = crate::lines::texts(problems@);
    match url {
        None => {
            assert(before + Seq::<Seq<char>>::empty() =~= before);
        },
        Some(u) => {
            let chars = to_chars(u.as_str());
            let http = to_chars("http://");
            let https = to_chars("https://");
            let ghost first: Seq<Seq<char>> = seq![];
            if !starts_with(&chars, &http) && !starts_with(&chars, &https) {
                let mut message = String::from_str("URL for field `");
                message.append(field);
                message.append("` must begin with http:// or https:// (url: ");
                message.append(u.as_str());
                message.append(")");
                proof {
                    first = seq![message@];
                    assert(crate::lines::texts(problems@.push(message)) =~= before + first);
                }
                problems.push(message);
            } else {
                assert(before + first =~= before);
            }
            let ghost middle = crate::lines::texts(problems@);
            if !parses_as_url(u.as_str()) {
                let mut message = String::from_str("`");
                message.append(field);
                message.append("` is not a valid url: `");
                message.append(u.as_str());
                message.append("`");
                proof {
                    assert(crate::lines::texts(problems@.push(message)) =~= before + (first + seq![
                        message@,
                    ]));
                }
                problems.push(message);
            } else {
                assert(middle =~= before + (first + Seq::<Seq<char>>::empty()));
            }
        },
    }
}

/// Everything that is wrong with the metadata of `pkg`.
pub fn problems(pkg: &Package) -> (r: Vec<String>)
    ensures
        crate::lines::texts(r@) == problems_of(*pkg),
{
    let mut out: Vec<String> = Vec::new();
    let ghost empty = Seq::<Seq<char>>::empty();
    assert(crate::lines::texts(out@) =~= empty);
    if pkg.description.is_none() {
        let m = String::from_str("'description' field should be set");
        assert(crate::lines::texts(out@.push(m)) =~= seq![m@]);
        out.push(m);
    }
    let ghost a = crate::lines::texts(out@);
    if pkg.license.is_none() && pkg.license_file.is_none() {
        let m = String::from_str("either 'license' or 'license-file' field should be set");
        assert(crate::lines::texts(out@.push(m)) =~= a + seq![m@]);
        out.push(m);
    } else {
        assert(a + empty =~= a);
    }
    let ghost b = crate::lines::texts(out@);
    let too_long = match &pkg.description {
        Some(d) => d.as_str().as_bytes().len() > MAX_DESCRIPTION_LEN,
        None => false,
    };
    if too_long {
        let m = String::from_str("Description is too long (max 1000 characters)");
        assert(crate::lines::texts(out@.push(m)) =~= b + seq![m@]);
        out.push(m);
    } else {
        assert(b + empty =~= b);
    }
    let ghost b2 = crate::lines::texts(out@);
    validate_url(&pkg.homepage, "homepage", &mut out);
    validate_url(&pkg.documentation, "documentation", &mut out);
    validate_url(&pkg.repository, "repository", &mut out);
    let ghost c = crate::lines::texts(out@);
    if pkg.keywords.len() > MAX_KEYWORDS {
        let m = String::from_str("Too many keywords (max 5 keywords)");
        assert(crate::lines::texts(out@.push(m)) =~= c + seq![m@]);
        out.push(m);
    } else {
        assert(c + empty =~= c);
    }
    let ghost d = crate::lines::texts(out@);
    let mut i: usize = 0;
    assert(pkg.keywords@.take(0) =~= Seq::<String>::empty());
    assert(d + keywords_problems(pkg.keywords@.take(0)) =~= d);
    while i < pkg.keywords.len()
        invariant
            i <= pkg.keywords.len(),
            crate::lines::texts(out@) == d + keywords_problems(pkg.keywords@.take(i as int)),
        decreases pkg.keywords.len() - i,
    {
        let kw = &pkg.keywords[i];
        let ghost done = crate::lines::texts(out@);
        proof {
            assert(pkg.keywords@.take(i + 1).drop_last() =~= pkg.keywords@.take(i as int));
            assert(pkg.keywords@.take(i + 1).last() == *kw);
        }
        if kw.as_str().as_bytes().len() > MAX_KEYWORD_LEN {
            let mut m = String::from_str("Keyword is too long (max 20 characters): ");
            m.append(kw.as_str());
            assert(crate::lines::texts(out@.push(m)) =~= done + seq![m@]);
            out.push(m);
        } else if !valid_keyword(kw.as_str()) {
            let mut m = String::from_str("Keyword contains invalid characters: ");
            m.append(kw.as_str());
            assert(crate::lines::texts(out@.push(m)) =~= done + seq![m@]);
            out.push(m);
        } else {
            assert(done + Seq::<Seq<char>>::empty() =~= done);
        }
        proof {
            let k = keywords_problems(pkg.keywords@.take(i as int));
            let one = keyword_problems(kw@);
            assert(crate::lines::texts(out@) == done + one);
            assert(d + (k + one) =~= (d + k) + one);
        }
        i += 1;
    }
    proof {
        assert(pkg.keywords@.take(pkg.keywords@.len() as int) =~= pkg.keywords@);
        let u1 = url_problems(optional_text(pkg.homepage), "homepage"@);
        let u2 = url_problems(optional_text(pkg.documentation), "documentation"@);
        let u3 = url_problems(optional_text(pkg.repository), "repository"@);
        assert(c == b2 + u1 + u2 + u3);
        assert(crate::lines::texts(out@) =~= problems_of(*pkg));
    }
    out
}

/// Checks the metadata of `pkg` before it is published: fails, naming the
/// package, where anything is wrong with it.
pub fn basic_checks(pkg: &Package) -> (r: Result<()>)
    ensures
        match r {
            Ok(_) => problems_of(*pkg).len() == 0,
            Err(e) => problems_of(*pkg).len() > 0 && e is Publish && e->Publish_0@ == pkg.name@,
        },
{
    let found = problems(pkg);
    assert(crate::lines::texts(found@).len() == found@.len());
    if found.len() == 0 {
        Ok(())
    } else {
        Err(Error::Publish(pkg.name.clone()))
    }
}

} // verus!
