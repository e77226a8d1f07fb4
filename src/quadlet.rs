//! One unit-definition file: its name, its kind, and what is known of its
//! content and live status.
use vstd::prelude::*;
use crate::quadlet_type::{kind_for_token, lemma_registry_bijective, token_of, QuadletType};
use crate::text::{chars_of, rfind_char, rfind_in};

verus! {

/// The normalised lifecycle state of a unit.
#[derive(Debug, Clone, Copy, PartialEq, Eq, Structural)]
pub enum QuadletStatus {
    Active,
    Inactive,
    Failed,
    Activating,
    Deactivating,
    Unknown,
}

/// The extension given for a file is not one of the registry's.
#[derive(Debug, Clone)]
pub struct UnsupportedTypeError {
    pub extension: String,
}

/// A unit-definition file. `content` is absent until read (or given for a
/// write), `status` until reconciled with the live unit.
#[derive(Debug, Clone)]
pub struct Quadlet {
    pub name: String,
    pub kind: QuadletType,
    pub content: Option<String>,
    pub status: Option<QuadletStatus>,
}

/// The identity and status of a file found by discovery.
#[derive(Debug, Clone)]
pub struct QuadletInfo {
    pub name: String,
    pub kind: QuadletType,
    pub status: Option<QuadletStatus>,
}

/// The file name of a file named `name` of kind `kind`.
pub open spec fn file_name_of(name: Seq<char>, kind: QuadletType) -> Seq<char> {
    name + seq!['.'] + token_of(kind)
}

/// The name and kind of the file named `f`: its stem and the kind of the
/// extension after its last dot; `None` when it has no dot or the extension
/// is not the registry's.
pub open spec fn artifact_of(f: Seq<char>) -> Option<(Seq<char>, QuadletType)> {
    let p = rfind_char(f, '.', f.len() as int);
    if p < 0 {
        None
    } else {
        match kind_for_token(f.subrange(p + 1, f.len() as int)) {
            Some(k) => Some((f.subrange(0, p), k)),
            None => None,
        }
    }
}

proof fn lemma_rfind_at(s: Seq<char>, c: char, p: int, end: int)
    requires
        0 <= p < end <= s.len(),
        s[p] == c,
        forall|j: int| p < j < end ==> s[j] != c,
    ensures
        rfind_char(s, c, end) == p,
    decreases end,
{
    if end - 1 > p {
        lemma_rfind_at(s, c, p, end - 1);
    }
}

proof fn lemma_rfind_found(s: Seq<char>, c: char, end: int)
    requires
        0 <= end <= s.len(),
    ensures
        rfind_char(s, c, end) >= 0 ==> rfind_char(s, c, end) < end && s[rfind_char(s, c, end)] == c,
        rfind_char(s, c, end) >= -1,
    decreases end,
{
    if end > 0 && s[end - 1] != c {
        lemma_rfind_found(s, c, end - 1);
    }
}

/// A file is one of the library's exactly when its name is a name, a dot and
/// a registered extension token; the name and kind are then those parts.
pub proof fn lemma_artifact_of_file_name(f: Seq<char>, n: Seq<char>, k: QuadletType)
    ensures
        artifact_of(f) == Some((n, k)) <==> f == file_name_of(n, k),
{
    lemma_registry_bijective(k, k, token_of(k));
    reveal_strlit("container");
    reveal_strlit("network");
    reveal_strlit("volume");
    reveal_strlit("kube");
    reveal_strlit("pod");
    reveal_strlit("image");
    let t = token_of(k);
    assert(forall|j: int| 0 <= j < t.len() ==> t[j] != '.');
    if f == file_name_of(n, k) {
        let p = n.len() as int;
        assert(f[p] == '.');
        assert forall|j: int| p < j < f.len() implies f[j] != '.' by {
            assert(f[j] == t[j - p - 1]);
        }
        lemma_rfind_at(f, '.', p, f.len() as int);
        assert(f.subrange(p + 1, f.len() as int) =~= t);
        assert(f.subrange(0, p) =~= n);
    }
    if artifact_of(f) == Some((n, k)) {
        lemma_rfind_found(f, '.', f.len() as int);
        let p = rfind_char(f, '.', f.len() as int);
        let rest = f.subrange(p + 1, f.len() as int);
        lemma_registry_bijective(k, k, rest);
        assert(rest == t);
        assert(f =~= f.subrange(0, p) + seq!['.'] + rest);
    }
}

/// The name and kind of a file from its file name; see `artifact_of`.
pub fn classify_file_name(file_name: &str) -> (r: Option<(String, QuadletType)>)
    ensures
        match r {
            Some((n, k)) => artifact_of(file_name@) == Some((n@, k)),
            None => artifact_of(file_name@).is_none(),
        },
{
    let chars = chars_of(file_name);
    let n = chars.len();
    match rfind_in(&chars, '.') {
        None => None,
        Some(p) => {
            let ext = file_name.substring_char(p + 1, n);
            match QuadletType::from_extension(ext) {
                None => {
                    proof {
                        reveal_strlit("container");
                        reveal_strlit("network");
                        reveal_strlit("volume");
                        reveal_strlit("kube");
                        reveal_strlit("pod");
                        reveal_strlit("image");
                    }
                    None
                },
                Some(k) => {
                    proof {
                        reveal_strlit("container");
                        reveal_strlit("network");
                        reveal_strlit("volume");
                        reveal_strlit("kube");
                        reveal_strlit("pod");
                        reveal_strlit("image");
                    }
                    let stem = file_name.substring_char(0, p).to_owned();
                    Some((stem, k))
                },
            }
        },
    }
}

impl Quadlet {
    /// A file named `name` whose kind is given by the extension token
    /// `extension`; fails when the token is not the registry's.
    pub fn new(name: &str, extension: &str, content: Option<String>) -> (r: Result<
        Quadlet,
        UnsupportedTypeError,
    >)
        ensures
            match kind_for_token(extension@) {
                Some(k) => r matches Ok(q) && q.name@ == name@ && q.kind == k && q.content
                    == content && q.status.is_none(),
                None => r matches Err(e) && e.extension@ == extension@,
            },
    {
        match QuadletType::from_extension(extension) {
            Some(kind) => Ok(Quadlet { name: name.to_owned(), kind, content, status: None }),
            None => Err(UnsupportedTypeError { extension: extension.to_owned() }),
        }
    }

    /// The file name: the name, a dot, and the kind's extension token.
    pub fn full_name(&self) -> (r: String)
        ensures
            r@ == file_name_of(self.name@, self.kind),
    {
        proof {
            reveal_strlit(".");
        }
        let mut r = self.name.clone();
        r.append(".");
        r.append(self.kind.extension());
        assert(r@ =~= file_name_of(self.name@, self.kind));
        r
    }
}

} // verus!
