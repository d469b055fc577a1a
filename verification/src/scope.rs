//! The part of an account that a drive may touch.
use crate::path::{is_plain_name, plain_name};
use crate::text::{opt_text, same_text, texts};
use vstd::prelude::*;

verus! {

/// An address in an account: the file system and the user it belongs to, and the decoded elements
/// of the path in it.
#[derive(Debug, Clone, PartialEq, Eq)]
pub struct CrUri {
    pub base: String,
    pub elements: Vec<String>,
}

/// An address by its values.
pub struct CrUriView {
    pub base: Seq<char>,
    pub elements: Seq<Seq<char>>,
}

impl View for CrUri {
    type V = CrUriView;

    open spec fn view(&self) -> CrUriView {
        CrUriView { base: self.base@, elements: texts(self.elements@) }
    }
}

/// Why an address is refused.
#[derive(Debug, Clone, Copy, PartialEq, Eq, Structural)]
pub enum ScopeError {
    /// It lies in another account or file system, or not below the root.
    OutOfScope,
    /// An element of it cannot stand for one entry of a folder.
    InvalidPath,
}

/// Whether `uri` lies in the same account and file system as `root`, at or below it.
pub open spec fn within(root: CrUriView, uri: CrUriView) -> bool {
    &&& root.base == uri.base
    &&& root.elements.len() <= uri.elements.len()
    &&& forall|i: int|
        0 <= i < root.elements.len() ==> #[trigger] uri.elements[i] == root.elements[i]
}

/// Whether every element of an address can stand for one entry of a folder.
pub open spec fn plain_elements(uri: CrUriView) -> bool {
    forall|i: int| 0 <= i < uri.elements.len() ==> plain_name(#[trigger] uri.elements[i])
}

/// Why `uri` is refused below `root`, if it is.
pub open spec fn scope_fault(root: CrUriView, uri: CrUriView) -> Option<ScopeError> {
    if !within(root, uri) {
        Some(ScopeError::OutOfScope)
    } else if !plain_elements(uri) {
        Some(ScopeError::InvalidPath)
    } else {
        None
    }
}

/// Checks that `uri` lies at or below `root`, element by element.
pub fn in_scope(root: &CrUri, uri: &CrUri) -> (outcome: Result<(), ScopeError>)
    ensures
        match outcome {
            Ok(()) => scope_fault(root@, uri@) is None,
            Err(error) => scope_fault(root@, uri@) == Some(error),
        },
{
    if !same_text(root.base.as_str(), uri.base.as_str()) || root.elements.len()
        > uri.elements.len() {
        return Err(ScopeError::OutOfScope);
    }
    let mut i: usize = 0;
    while i < root.elements.len()
        invariant
            i <= root.elements.len() <= uri.elements.len(),
            forall|j: int| 0 <= j < i ==> #[trigger] uri@.elements[j] == root@.elements[j],
        decreases root.elements.len() - i,
    {
        assert(uri@.elements[i as int] == uri.elements[i as int]@);
        assert(root@.elements[i as int] == root.elements[i as int]@);
        if !same_text(uri.elements[i].as_str(), root.elements[i].as_str()) {
            return Err(ScopeError::OutOfScope);
        }
        i += 1;
    }
    let mut k: usize = 0;
    while k < uri.elements.len()
        invariant
            k <= uri.elements.len(),
            within(root@, uri@),
            forall|j: int| 0 <= j < k ==> plain_name(#[trigger] uri@.elements[j]),
        decreases uri.elements.len() - k,
    {
        assert(uri@.elements[k as int] == uri.elements[k as int]@);
        if !is_plain_name(uri.elements[k].as_str()) {
            return Err(ScopeError::InvalidPath);
        }
        k += 1;
    }
    Ok(())
}

/// By what the server is asked for a file: its address, or its identifier.
#[derive(Debug, Clone, PartialEq, Eq)]
pub struct ItemQuery {
    pub uri: Option<String>,
    pub id: Option<String>,
}

/// The identifier that stands for the root of the drive.
pub open spec fn root_id() -> Seq<char> {
    "root"@
}

/// How the server is asked for the file `id` of a drive: the root by its address, any other file
/// by its identifier.
pub fn item_query(root: &str, id: &str) -> (query: ItemQuery)
    ensures
        id@ == root_id() ==> opt_text(query.uri) == Some(root@) && query.id is None,
        id@ != root_id() ==> query.uri is None && opt_text(query.id) == Some(id@),
{
    if same_text(id, "root") {
        ItemQuery { uri: Some(root.to_owned()), id: None }
    } else {
        ItemQuery { uri: None, id: Some(id.to_owned()) }
    }
}

/// What is in the scope of an address that is itself in scope is in scope too: a drive cannot be
/// left step by step.
pub proof fn lemma_scope_is_closed(root: CrUriView, folder: CrUriView, uri: CrUriView)
    requires
        scope_fault(root, folder) is None,
        scope_fault(folder, uri) is None,
    ensures
        scope_fault(root, uri) is None,
{
    assert forall|i: int| 0 <= i < root.elements.len() implies #[trigger] uri.elements[i]
        == root.elements[i] by {
        assert(folder.elements[i] == root.elements[i]);
    }
}

/// The scope of a root is exactly what lies at or below it in its own account and file system, by
/// elements that each stand for one entry of a folder.
pub proof fn lemma_scope_is_the_subtree(root: CrUriView, rest: Seq<Seq<char>>, uri: CrUriView)
    ensures
        scope_fault(root, uri) is None ==> uri.base == root.base && uri.elements == root.elements
            + uri.elements.skip(root.elements.len() as int) && forall|i: int|
            0 <= i < uri.elements.len() ==> plain_name(#[trigger] uri.elements[i]),
        uri.base == root.base && uri.elements == root.elements + rest && (forall|i: int|
            0 <= i < uri.elements.len() ==> plain_name(#[trigger] uri.elements[i])) ==> scope_fault(
            root,
            uri,
        ) is None,
        scope_fault(root, uri) == Some(ScopeError::OutOfScope) <==> uri.base != root.base
            || uri.elements.len() < root.elements.len() || uri.elements.take(
            root.elements.len() as int,
        ) != root.elements,
{
    let n = root.elements.len() as int;
    if uri.elements.len() >= n {
        if within(root, uri) {
            assert(uri.elements.take(n) =~= root.elements);
            assert(uri.elements =~= root.elements + uri.elements.skip(n));
        }
        if uri.elements.take(n) == root.elements {
            assert forall|i: int| 0 <= i < n implies #[trigger] uri.elements[i]
                == root.elements[i] by {
                assert(uri.elements.take(n)[i] == uri.elements[i]);
            }
        }
    }
    if uri.elements == root.elements + rest {
        assert(uri.elements.take(n) =~= root.elements);
    }
}

/// The root of a drive is asked for by its address, and every other file by its own identifier.
pub proof fn lemma_files_are_asked_for(root: &str, id: &str, query: ItemQuery)
    requires
        call_ensures(item_query, (root, id), query),
    ensures
        id@ == "root"@ ==> opt_text(query.uri) == Some(root@) && query.id is None,
        id@ != "root"@ ==> query.uri is None && opt_text(query.id) == Some(id@),
{
}

} // verus!
