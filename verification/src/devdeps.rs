//! Taking the development dependencies out of a manifest. The manifest is
//! read, changed and written out again by the `toml_edit` crate.

use crate::error::{Error, Result};
use crate::lines::texts;
use toml_edit::Document;
use vstd::prelude::*;
use vstd::string::StringExecFns;

verus! {

/// A TOML document of the `toml_edit` crate.
#[verifier::external_type_specification]
#[verifier::external_body]
pub struct ExDocument(Document);

/// The path of a table in a document: the keys that lead to it from the
/// root. The root has the empty path.
pub type TablePath = Seq<Seq<char>>;

/// What the document holds, as far as its tables go: for the path of each
/// table, the keys of the table in their order.
pub uninterp spec fn tables(doc: Document) -> Map<TablePath, Seq<Seq<char>>>;

/// The text that `Document::to_string` gives for the document.
pub uninterp spec fn rendering(doc: Document) -> Seq<char>;

/// What `text.parse::<Document>()` makes of `text`: the tables of the
/// document it reads, or `None` where it reports an error.
pub uninterp spec fn toml_document(text: Seq<char>) -> Option<Map<TablePath, Seq<Seq<char>>>>;

/// The keys of the table at `path`; none where there is no table.
pub open spec fn keys_at(all: Map<TablePath, Seq<Seq<char>>>, path: TablePath) -> Seq<Seq<char>> {
    if all.contains_key(path) {
        all[path]
    } else {
        seq![]
    }
}

/// Parses `text` as a `Document`.
#[verifier::external_body]
pub(crate) fn parse_document(text: &str) -> (r: core::result::Result<
    Document,
    toml_edit::TomlError,
>)
    ensures
        match r {
            Ok(doc) => toml_document(text@) == Some(tables(doc)),
            Err(_) => toml_document(text@).is_none(),
        },
{
    text.parse::<Document>()
}

/// The keys of the table at `path`, which is reached from the root with
/// `Table::get` and `Item::as_table`; no keys where that does not lead to a
/// table.
#[verifier::external_body]
pub(crate) fn table_keys(doc: &Document, path: &Vec<String>) -> (r: Vec<String>)
    ensures
        texts(r@) == keys_at(tables(*doc), texts(path@)),
{
    let mut table = Some(doc.as_table());
    for key in path {
        table = table.and_then(|t| t.get(key)).and_then(|i| i.as_table());
    }
    table.map(|t| t.iter().map(|(k, _)| k.to_string()).collect()).unwrap_or_default()
}

/// `Table::remove` on the table at `path`: the key leaves that table and
/// the other keys keep their order. Tables elsewhere stay as they are, but
/// for those that lay under the key. Where `path` leads to no table,
/// nothing changes.
#[verifier::external_body]
pub(crate) fn remove_key(doc: &mut Document, path: &Vec<String>, key: &str)
    ensures
        keys_at(tables(*final(doc)), texts(path@)) == keys_at(tables(*old(doc)), texts(path@)).filter(
            |k: Seq<char>| k != key@,
        ),
        forall|other: TablePath|
            other != texts(path@) && !texts(path@).push(key@).is_prefix_of(other) ==> keys_at(
                #[trigger] tables(*final(doc)),
                other,
            ) == keys_at(tables(*old(doc)), other),
{
    let mut table = Some(doc.as_table_mut());
    for k in path {
        table = table.and_then(|t| t.get_mut(k)).and_then(|i| i.as_table_mut());
    }
    if let Some(t) = table {
        t.remove(key);
    }
}

/// `Document::to_string`: the text of the document.
#[verifier::external_body]
pub(crate) fn render(doc: &Document) -> (r: String)
    ensures
        r@ == rendering(*doc),
{
    doc.to_string()
}

/// The path of the table of the target `target`.
pub open spec fn target_path(target: Seq<char>) -> TablePath {
    seq!["target"@, target]
}

/// The names of the targets that have a table of their own: the keys of
/// the table `target`.
pub open spec fn targets(all: Map<TablePath, Seq<Seq<char>>>) -> Seq<Seq<char>> {
    keys_at(all, seq!["target"@])
}

/// Whether the tables hold no development dependencies: neither the root
/// nor the table of any target has the key `dev-dependencies`.
pub open spec fn without_dev_dependencies(all: Map<TablePath, Seq<Seq<char>>>) -> bool {
    &&& !keys_at(all, seq![]).contains("dev-dependencies"@)
    &&& forall|i: int|
        0 <= i < keys_at(all, seq!["target"@]).len() ==> !keys_at(
            all,
            target_path(#[trigger] keys_at(all, seq!["target"@])[i]),
        ).contains("dev-dependencies"@)
}

/// Whether `path` is the root or the table of one of the first `upto`
/// targets: the tables whose key `dev-dependencies` is taken out.
pub open spec fn is_cleared(all: Map<TablePath, Seq<Seq<char>>>, path: TablePath, upto: int) -> bool {
    path == Seq::<Seq<char>>::empty() || exists|k: int|
        0 <= k < upto && k < targets(all).len() && path == target_path(#[trigger] targets(all)[k])
}

/// Whether `path` lies at or under a key `dev-dependencies` that is taken
/// out: that of the root, or that of the table of a target.
pub open spec fn is_dropped(all: Map<TablePath, Seq<Seq<char>>>, path: TablePath) -> bool {
    seq!["dev-dependencies"@].is_prefix_of(path) || exists|k: int|
        0 <= k < targets(all).len() && (#[trigger] target_path(targets(all)[k])).push(
            "dev-dependencies"@,
        ).is_prefix_of(path)
}

/// The keys that the table at `path` has once the key `dev-dependencies`
/// is taken out of the root and of the tables of the first `upto` targets:
/// those tables lose that key, every other table keeps its keys.
pub open spec fn keys_left(
    all: Map<TablePath, Seq<Seq<char>>>,
    path: TablePath,
    upto: int,
) -> Seq<Seq<char>> {
    if is_cleared(all, path, upto) {
        keys_at(all, path).filter(|k: Seq<char>| k != "dev-dependencies"@)
    } else {
        keys_at(all, path)
    }
}

/// Whether `after` is `before` without its development dependencies: the
/// root and the table of each target have lost the key `dev-dependencies`
/// and kept their other keys in order, and every table that does not lie
/// under such a key has the keys it had.
pub open spec fn reduced(
    before: Map<TablePath, Seq<Seq<char>>>,
    after: Map<TablePath, Seq<Seq<char>>>,
) -> bool {
    forall|path: TablePath|
        !is_dropped(before, path) ==> #[trigger] keys_at(after, path) == keys_left(
            before,
            path,
            targets(before).len() as int,
        )
}

proof fn lemma_filtered_out(keys: Seq<Seq<char>>, key: Seq<char>)
    ensures
        !keys.filter(|k: Seq<char>| k != key).contains(key),
{
    let kept = keys.filter(|k: Seq<char>| k != key);
    if kept.contains(key) {
        let i = choose|i: int| 0 <= i < kept.len() && kept[i] == key;
        keys.lemma_filter_pred(|k: Seq<char>| k != key, i);
    }
}

proof fn lemma_filter_idle(keys: Seq<Seq<char>>, key: Seq<char>)
    requires
        !keys.contains(key),
    ensures
        keys.filter(|k: Seq<char>| k != key) == keys,
    decreases keys.len(),
{
    let keep = |k: Seq<char>| k != key;
    if keys.len() == 0 {
        keys.lemma_filter_len(keep);
        assert(keys.filter(keep) =~= keys);
    } else {
        let front = keys.drop_last();
        assert(keys =~= front.push(keys.last()));
        assert(!front.contains(key)) by {
            if front.contains(key) {
                let i = choose|i: int| 0 <= i < front.len() && front[i] == key;
                assert(keys[i] == key);
            }
        }
        assert(keys[keys.len() - 1] != key);
        lemma_filter_idle(front, key);
        front.lemma_filter_push(keys.last(), keep);
    }
}

/// A manifest without its development dependencies has none.
pub proof fn lemma_reduced_has_none(
    before: Map<TablePath, Seq<Seq<char>>>,
    after: Map<TablePath, Seq<Seq<char>>>,
)
    requires
        reduced(before, after),
    ensures
        without_dev_dependencies(after),
        targets(after) == targets(before),
{
    let key = "dev-dependencies"@;
    let root = Seq::<Seq<char>>::empty();
    reveal_strlit("dev-dependencies");
    reveal_strlit("target");
    assert(key.len() == 16 && "target"@.len() == 6);
    assert(!is_dropped(before, root)) by {
        lemma_not_dropped(before, root);
    }
    assert(keys_at(after, root) == keys_left(before, root, targets(before).len() as int));
    lemma_filtered_out(keys_at(before, root), key);
    let under = seq!["target"@];
    lemma_not_dropped(before, under);
    assert(!is_cleared(before, under, targets(before).len() as int)) by {
        assert(under.len() == 1);
    }
    assert(keys_at(after, under) == keys_left(before, under, targets(before).len() as int));
    assert forall|i: int| 0 <= i < targets(after).len() implies !keys_at(
        after,
        target_path(#[trigger] targets(after)[i]),
    ).contains(key) by {
        let here = target_path(targets(before)[i]);
        lemma_not_dropped(before, here);
        assert(is_cleared(before, here, targets(before).len() as int));
        assert(keys_at(after, here) == keys_left(before, here, targets(before).len() as int));
        lemma_filtered_out(keys_at(before, here), key);
    }
}

/// The root, the table `target` and the table of each target lie under no
/// key that is taken out.
proof fn lemma_not_dropped(all: Map<TablePath, Seq<Seq<char>>>, path: TablePath)
    requires
        path.len() <= 2,
        path.len() >= 1 ==> path[0] == "target"@,
    ensures
        !is_dropped(all, path),
{
    let key = "dev-dependencies"@;
    reveal_strlit("dev-dependencies");
    reveal_strlit("target");
    assert(key.len() == 16 && "target"@.len() == 6);
    if seq![key].is_prefix_of(path) {
        assert(seq![key][0] == path[0]);
    }
    assert forall|k: int| 0 <= k < targets(all).len() implies !(#[trigger] target_path(
        targets(all)[k],
    )).push(key).is_prefix_of(path) by {
        assert(target_path(targets(all)[k]).push(key).len() == 3);
    }
}

/// The text of the manifest `text` without its development dependencies:
/// the table `dev-dependencies` is taken out at the root and under each
/// target. Fails where `text` is no TOML document, and only there. The
/// other keys of those tables stay, in their order, and every table that
/// does not lie under a key that was taken out keeps its keys.
pub fn without_dev_deps(text: &str) -> (r: Result<String>)
    ensures
        match r {
            Ok(out) => toml_document(text@) is Some && exists|doc: Document|
                #![trigger rendering(doc)]
                {
                    &&& out@ == rendering(doc)
                    &&& reduced(toml_document(text@)->Some_0, tables(doc))
                    &&& without_dev_dependencies(tables(doc))
                },
            Err(e) => e is Toml && toml_document(text@).is_none(),
        },
{
    let mut doc = match parse_document(text) {
        Ok(doc) => doc,
        Err(e) => {
            return Err(Error::Toml(e));
        },
    };
    let ghost key = "dev-dependencies"@;
    let ghost parsed = tables(doc);
    let ghost empty = Seq::<Seq<char>>::empty();
    let root: Vec<String> = Vec::new();
    assert(texts(root@) =~= empty);
    remove_key(&mut doc, &root, "dev-dependencies");
    let ghost first = tables(doc);
    proof {
        assert(empty.push(key) =~= seq![key]);
        lemma_not_dropped(parsed, seq!["target"@]);
        assert(seq!["target"@] != empty) by {
            assert(seq!["target"@].len() == 1);
        }
        assert(keys_at(first, seq!["target"@]) == keys_at(parsed, seq!["target"@]));
        assert forall|path: TablePath| !is_dropped(parsed, path) implies #[trigger] keys_at(
            first,
            path,
        ) == keys_left(parsed, path, 0) by {
            if path != empty {
                assert(!empty.push(key).is_prefix_of(path));
            }
        }
    }
    let mut under: Vec<String> = Vec::new();
    under.push(String::from_str("target"));
    assert(texts(under@) =~= seq!["target"@]);
    let found = table_keys(&doc, &under);
    let ghost names = texts(found@);
    let mut i: usize = 0;
    while i < found.len()
        invariant
            i <= found.len(),
            key == "dev-dependencies"@,
            names == texts(found@),
            names == targets(parsed),
            forall|path: TablePath|
                !is_dropped(parsed, path) ==> #[trigger] keys_at(tables(doc), path) == keys_left(
                    parsed,
                    path,
                    i as int,
                ),
        decreases found.len() - i,
    {
        let mut path: Vec<String> = Vec::new();
        path.push(String::from_str("target"));
        path.push(found[i].clone());
        let ghost here = target_path(names[i as int]);
        assert(texts(path@) =~= here);
        let ghost before = tables(doc);
        remove_key(&mut doc, &path, "dev-dependencies");
        proof {
            let after = tables(doc);
            assert forall|other: TablePath| !is_dropped(parsed, other) implies #[trigger] keys_at(
                after,
                other,
            ) == keys_left(parsed, other, i + 1) by {
                assert(keys_at(before, other) == keys_left(parsed, other, i as int));
                let keep = |k: Seq<char>| k != key;
                assert(keep =~= (|k: Seq<char>| k != "dev-dependencies"@));
                if other == here {
                    assert(is_cleared(parsed, other, i + 1));
                    assert(keys_at(after, other) == keys_at(before, other).filter(keep));
                    if is_cleared(parsed, other, i as int) {
                        lemma_filtered_out(keys_at(parsed, other), key);
                        lemma_filter_idle(keys_at(before, other), key);
                    }
                } else {
                    assert(!here.push(key).is_prefix_of(other)) by {
                        assert(here == target_path(targets(parsed)[i as int]));
                    }
                    assert(keys_at(after, other) == keys_at(before, other));
                    assert(is_cleared(parsed, other, i + 1) == is_cleared(parsed, other, i as int));
                }
            }
        }
        i += 1;
    }
    proof {
        lemma_reduced_has_none(parsed, tables(doc));
    }
    Ok(render(&doc))
}

/// What is needed to put a manifest back after its development
/// dependencies were taken out for the time of a publication.
#[derive(Debug)]
pub struct DevDependencyRemover {
    pub manifest_path: String,
    /// The text of the manifest as it was.
    pub original_toml: String,
}

impl DevDependencyRemover {
    /// The text to write to the manifest at `manifest_path`, which reads
    /// `original_toml`, for the time of a publication; and what puts the
    /// manifest back afterwards. Fails where the manifest is no TOML
    /// document, and only there.
    pub fn remove_dev_deps(manifest_path: &str, original_toml: String) -> (r: Result<
        (DevDependencyRemover, String),
    >)
        ensures
            match r {
                Ok((remover, shorter)) => {
                    &&& remover.manifest_path@ == manifest_path@
                    &&& remover.original_toml@ == original_toml@
                    &&& toml_document(original_toml@) is Some
                    &&& exists|doc: Document|
                        #![trigger rendering(doc)]
                        {
                            &&& shorter@ == rendering(doc)
                            &&& reduced(toml_document(original_toml@)->Some_0, tables(doc))
                            &&& without_dev_dependencies(tables(doc))
                        }
                },
                Err(e) => e is Toml && toml_document(original_toml@).is_none(),
            },
    {
        match without_dev_deps(original_toml.as_str()) {
            Ok(reduced) => Ok(
                (
                    DevDependencyRemover {
                        manifest_path: String::from_str(manifest_path),
                        original_toml,
                    },
                    reduced,
                ),
            ),
            Err(e) => Err(e),
        }
    }

    /// The text to write to the manifest when the publication is over,
    /// however it ended: the text as it was.
    pub fn restore(&self) -> (r: &str)
        ensures
            r@ == self.original_toml@,
    {
        self.original_toml.as_str()
    }
}

} // verus!
