//! The manifest of a workspace root: the table `workspace` with its list
//! of members and its resolver, written with the `toml_edit` crate.

use crate::commands::{Init, Resolver};
use crate::devdeps::{keys_at, parse_document, render, rendering, table_keys, tables, toml_document};
use crate::error::{Error, Result};
use crate::lines::texts;
use toml_edit::Document;
use vstd::prelude::*;
use vstd::string::StringExecFns;

verus! {

/// `Document::default`: a document whose root holds no key.
#[verifier::external_body]
pub(crate) fn empty_document() -> (doc: Document)
    ensures
        keys_at(tables(doc), seq![]) == Seq::<Seq<char>>::empty(),
{
    Document::default()
}

/// `Table::entry` on the root, `Entry::or_insert` with an empty table and
/// `Item::as_table_mut`: whether a table stands under `key` afterwards. It
/// does where the key was free, and where it held a table; a table under
/// `key` makes `key` a key of the root.
#[verifier::external_body]
pub(crate) fn ensure_table(doc: &mut Document, key: &str) -> (r: bool)
    ensures
        r == tables(*final(doc)).contains_key(seq![key@]),
        r ==> keys_at(tables(*final(doc)), seq![]).contains(key@),
{
    doc.entry(key).or_insert(toml_edit::Item::Table(toml_edit::Table::new())).as_table_mut().is_some()
}

/// In the table under `table`: `Table::entry`, `Entry::or_insert` with an
/// empty array and `Item::as_array_mut`: whether an array stands under
/// `key` afterwards, which makes `key` a key of the table. The keys of the
/// root stay, and so does what stands under `table`. Where `table` leads
/// to no table, nothing changes and the answer is no.
#[verifier::external_body]
pub(crate) fn ensure_array(doc: &mut Document, table: &str, key: &str) -> (r: bool)
    ensures
        keys_at(tables(*final(doc)), seq![]) == keys_at(tables(*old(doc)), seq![]),
        tables(*final(doc)).contains_key(seq![table@]) == tables(*old(doc)).contains_key(
            seq![table@],
        ),
        r ==> keys_at(tables(*final(doc)), seq![table@]).contains(key@),
{
    let empty = toml_edit::Item::Value(toml_edit::Value::Array(toml_edit::Array::new()));
    match doc.get_mut(table).and_then(|i| i.as_table_mut()) {
        Some(t) => t.entry(key).or_insert(empty).as_array_mut().is_some(),
        None => false,
    }
}

/// `Array::push_formatted` on the array under `key` in the table under
/// `table`: the string `value` goes to the end of the array, with `prefix`
/// before it and `suffix` after it. No table gets or loses a key. Where
/// the path leads to no array, nothing changes.
#[verifier::external_body]
pub(crate) fn push_string(
    doc: &mut Document,
    table: &str,
    key: &str,
    value: &str,
    prefix: &str,
    suffix: &str,
)
    ensures
        tables(*final(doc)) == tables(*old(doc)),
{
    let array = doc.get_mut(table).and_then(|i| i.as_table_mut()).and_then(|t| t.get_mut(key))
        .and_then(|i| i.as_array_mut());
    if let Some(a) = array {
        let text = toml_edit::Formatted::new(value.to_string());
        a.push_formatted(toml_edit::Value::String(text).decorated(prefix, suffix));
    }
}

/// `Table::insert` on the table under `table`: the string `value` stands
/// under `key` afterwards, and the table has the keys it had and `key`.
/// The keys of the root stay, and so does what stands under `table`. Where
/// `table` leads to no table, nothing changes.
#[verifier::external_body]
pub(crate) fn set_string(doc: &mut Document, table: &str, key: &str, value: &str)
    ensures
        keys_at(tables(*final(doc)), seq![]) == keys_at(tables(*old(doc)), seq![]),
        tables(*final(doc)).contains_key(seq![table@]) == tables(*old(doc)).contains_key(
            seq![table@],
        ),
        tables(*final(doc)).contains_key(seq![table@]) ==> keys_at(
            tables(*final(doc)),
            seq![table@],
        ).contains(key@),
        forall|k: Seq<char>|
            k != key@ ==> #[trigger] keys_at(tables(*final(doc)), seq![table@]).contains(k)
                == keys_at(tables(*old(doc)), seq![table@]).contains(k),
{
    if let Some(t) = doc.get_mut(table).and_then(|i| i.as_table_mut()) {
        let text = toml_edit::Formatted::new(value.to_string());
        t.insert(key, toml_edit::Item::Value(toml_edit::Value::String(text)));
    }
}

/// Whether `key` is one of `keys`.
pub fn has_key(keys: &Vec<String>, key: &str) -> (r: bool)
    ensures
        r == texts(keys@).contains(key@),
{
    let mut k: usize = 0;
    while k < keys.len()
        invariant
            k <= keys.len(),
            forall|a: int| 0 <= a < k ==> texts(keys@)[a] != key@,
        decreases keys.len() - k,
    {
        assert(texts(keys@)[k as int] == keys@[k as int]@);
        if crate::text::str_eq(keys[k].as_str(), key) {
            return true;
        }
        k += 1;
    }
    false
}

/// Whether the document is the manifest of a workspace with members, and
/// with a resolver if one is asked for: the root has the table
/// `workspace`, and that has the key `members`.
pub open spec fn is_workspace(doc: Document, resolver: bool) -> bool {
    &&& tables(doc).contains_key(seq!["workspace"@])
    &&& keys_at(tables(doc), seq![]).contains("workspace"@)
    &&& keys_at(tables(doc), seq!["workspace"@]).contains("members"@)
    &&& resolver ==> keys_at(tables(doc), seq!["workspace"@]).contains("resolver"@)
}

/// The manifest of a workspace root. `text` is the manifest that is there,
/// if there is one; `members` are the members to add to its list, each on
/// a line of its own; a resolver is set where one is asked for and the
/// manifest has none. Fails where the text is no TOML document, where
/// `workspace` is there and is no table, and where `members` is there and
/// is no array.
pub fn init_manifest(text: Option<String>, members: &Vec<String>, resolver: Option<Resolver>) -> (r:
    Result<String>)
    ensures
        (text is Some && toml_document(text->Some_0@) is None) <==> (r is Err && r->Err_0 is Toml),
        r is Err ==> r->Err_0 is Toml || r->Err_0 is WorkspaceBadFormat,
        r is Ok ==> exists|doc: Document|
            #![trigger rendering(doc)]
            r->Ok_0@ == rendering(doc) && is_workspace(doc, resolver is Some),
{
    let mut doc = match &text {
        Some(t) => match parse_document(t.as_str()) {
            Ok(doc) => doc,
            Err(e) => {
                return Err(Error::Toml(e));
            },
        },
        None => empty_document(),
    };
    if !ensure_table(&mut doc, "workspace") {
        return Err(
            Error::WorkspaceBadFormat(
                String::from_str("no workspace table found in workspace Cargo.toml"),
            ),
        );
    }
    if !ensure_array(&mut doc, "workspace", "members") {
        return Err(
            Error::WorkspaceBadFormat(
                String::from_str("members was not an array in workspace Cargo.toml"),
            ),
        );
    }
    let count = members.len();
    let mut i: usize = 0;
    while i < count
        invariant
            i <= count,
            count == members.len(),
            is_workspace(doc, false),
        decreases count - i,
    {
        let (prefix, suffix) = Init::decoration(i, count);
        push_string(&mut doc, "workspace", "members", members[i].as_str(), prefix, suffix);
        i += 1;
    }
    if let Some(wanted) = resolver {
        let mut path: Vec<String> = Vec::new();
        path.push(String::from_str("workspace"));
        assert(texts(path@) =~= seq!["workspace"@]);
        let keys = table_keys(&doc, &path);
        if !has_key(&keys, "resolver") {
            proof {
                reveal_strlit("members");
                reveal_strlit("resolver");
                assert("members"@.len() == 7 && "resolver"@.len() == 8);
            }
            set_string(&mut doc, "workspace", "resolver", wanted.name());
        }
    }
    Ok(render(&doc))
}

/// The items of the array under `key` in the table under `table`, read
/// with `Item::as_array` and `Array::iter`: each item that is a string as
/// its text, by `Value::as_str`, and `None` for any other item. `None`
/// where the path leads to no array.
#[verifier::external_body]
pub(crate) fn read_strings(doc: &Document, table: &str, key: &str) -> (r: Option<
    Vec<Option<String>>,
>)
{
    let array = doc.get(table).and_then(|i| i.as_table()).and_then(|t| t.get(key)).and_then(
        |i| i.as_array(),
    )?;
    Some(array.iter().map(|v| v.as_str().map(|s| s.to_string())).collect())
}

/// What stands before and after the last item of the array under `key` in
/// the table under `table`, by `Value::decor`; `None` where there is no
/// such item or it has no such texts of its own.
#[verifier::external_body]
pub(crate) fn last_decoration(doc: &Document, table: &str, key: &str) -> (r: Option<
    (String, String),
>)
{
    let array = doc.get(table).and_then(|i| i.as_table()).and_then(|t| t.get(key)).and_then(
        |i| i.as_array(),
    )?;
    let decor = array.iter().last()?.decor();
    Some((decor.prefix()?.as_str()?.to_string(), decor.suffix()?.as_str()?.to_string()))
}

/// Whether every item is a string.
pub open spec fn all_strings(items: Seq<Option<String>>) -> bool {
    forall|k: int| 0 <= k < items.len() ==> (#[trigger] items[k]) is Some
}

/// The texts of an array of strings, `items` being what was read of the
/// array called `name`: nothing where there is no array, and `None` for
/// each item that is no string. Fails where there is no array and where an
/// item is no string.
pub fn patterns(items: &Option<Vec<Option<String>>>, name: &str) -> (r: Result<Vec<String>>)
    ensures
        match items {
            None => r is Err && r->Err_0 is WorkspaceBadFormat
                && r->Err_0->WorkspaceBadFormat_0@ == name@ + " manifest item must be an array"@,
            Some(list) => if all_strings(list@) {
                r is Ok && r->Ok_0@.len() == list@.len() && forall|k: int|
                    0 <= k < list@.len() ==> #[trigger] r->Ok_0@[k] == list@[k]->Some_0
            } else {
                r is Err && r->Err_0 is WorkspaceBadFormat && r->Err_0->WorkspaceBadFormat_0@
                    == name@ + " manifest items must be strings"@
            },
        },
{
    match items {
        None => {
            let mut what = String::from_str(name);
            what.append(" manifest item must be an array");
            Err(Error::WorkspaceBadFormat(what))
        },
        Some(list) => {
            let mut out: Vec<String> = Vec::new();
            let mut k: usize = 0;
            while k < list.len()
                invariant
                    k <= list.len(),
                    *items == Some(*list),
                    out@.len() == k,
                    forall|a: int| 0 <= a < k ==> (#[trigger] list@[a]) is Some,
                    forall|a: int| 0 <= a < k ==> #[trigger] out@[a] == list@[a]->Some_0,
                decreases list.len() - k,
            {
                match &list[k] {
                    Some(text) => {
                        out.push(text.clone());
                    },
                    None => {
                        assert(list@[k as int] is None);
                        let mut what = String::from_str(name);
                        what.append(" manifest items must be strings");
                        return Err(Error::WorkspaceBadFormat(what));
                    },
                }
                k += 1;
            }
            Ok(out)
        },
    }
}

/// The manifest of a workspace root with one more member. `text` is the
/// manifest as it is, `root` the root of the workspace, `path` the
/// directory of the new member in full and `member` that directory as it
/// is to be listed. The member is added at the end of the list, written as
/// the last one before it is written, unless a pattern of the list matches
/// it already. Fails where the text is no TOML document, where `workspace`
/// is no table, where `exclude` or `members` is no array of strings, where
/// a pattern of `exclude` matches the new member, and where a pattern is
/// too long or rejected.
pub fn member_manifest(text: &str, root: &str, path: &str, member: &str) -> (r: Result<String>)
    ensures
        toml_document(text@) is None <==> (r is Err && r->Err_0 is Toml),
        r is Err ==> r->Err_0 is Toml || r->Err_0 is WorkspaceBadFormat
            || r->Err_0 is InWorkspaceExclude || r->Err_0 is GlobPattern
            || r->Err_0 is PatternTooLong,
        r is Ok ==> exists|doc: Document|
            #![trigger rendering(doc)]
            r->Ok_0@ == rendering(doc) && is_workspace(doc, false),
{
    let mut doc = match parse_document(text) {
        Ok(doc) => doc,
        Err(e) => {
            return Err(Error::Toml(e));
        },
    };
    if !ensure_table(&mut doc, "workspace") {
        return Err(
            Error::WorkspaceBadFormat(String::from_str("workspace manifest item must be a table")),
        );
    }
    let mut at: Vec<String> = Vec::new();
    at.push(String::from_str("workspace"));
    assert(texts(at@) =~= seq!["workspace"@]);
    if has_key(&table_keys(&doc, &at), "exclude") {
        let excluded = match patterns(
            &read_strings(&doc, "workspace", "exclude"),
            "workspace.exclude",
        ) {
            Ok(list) => list,
            Err(e) => {
                return Err(e);
            },
        };
        match crate::commands::Create::check_excluded(root, &excluded, path) {
            Ok(_) => {},
            Err(e) => {
                return Err(e);
            },
        }
    }
    if !ensure_array(&mut doc, "workspace", "members") {
        return Err(
            Error::WorkspaceBadFormat(
                String::from_str("workspace.members manifest item must be an array"),
            ),
        );
    }
    let members = match patterns(&read_strings(&doc, "workspace", "members"), "workspace.members") {
        Ok(list) => list,
        Err(e) => {
            return Err(e);
        },
    };
    match crate::commands::Create::is_member(root, &members, path) {
        Ok(true) => {
            return Ok(render(&doc));
        },
        Ok(false) => {},
        Err(e) => {
            return Err(e);
        },
    }
    match last_decoration(&doc, "workspace", "members") {
        Some((prefix, suffix)) => {
            push_string(&mut doc, "workspace", "members", member, prefix.as_str(), suffix.as_str());
        },
        None => {
            push_string(&mut doc, "workspace", "members", member, "\n    ", ",\n");
        },
    }
    Ok(render(&doc))
}

} // verus!
