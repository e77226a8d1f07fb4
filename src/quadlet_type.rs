//! The closed set of file kinds and their extension tokens.
use vstd::prelude::*;
use crate::text::same_text;

verus! {

/// The kinds of unit-definition file, each bound to one lowercase extension token.
#[derive(Debug, Clone, Copy, PartialEq, Eq, Structural)]
pub enum QuadletType {
    Container,
    Network,
    Volume,
    Kube,
    Pod,
    Image,
}

/// The extension token of a kind: its file extension without the dot.
pub open spec fn token_of(t: QuadletType) -> Seq<char> {
    match t {
        QuadletType::Container => "container"@,
        QuadletType::Network => "network"@,
        QuadletType::Volume => "volume"@,
        QuadletType::Kube => "kube"@,
        QuadletType::Pod => "pod"@,
        QuadletType::Image => "image"@,
    }
}

/// The kind whose token is `s`, if any.
pub open spec fn kind_for_token(s: Seq<char>) -> Option<QuadletType> {
    if s == "container"@ {
        Some(QuadletType::Container)
    } else if s == "network"@ {
        Some(QuadletType::Network)
    } else if s == "volume"@ {
        Some(QuadletType::Volume)
    } else if s == "kube"@ {
        Some(QuadletType::Kube)
    } else if s == "pod"@ {
        Some(QuadletType::Pod)
    } else if s == "image"@ {
        Some(QuadletType::Image)
    } else {
        None
    }
}

/// The registry in its fixed order.
pub open spec fn all_kinds() -> Seq<QuadletType> {
    seq![
        QuadletType::Container,
        QuadletType::Network,
        QuadletType::Volume,
        QuadletType::Kube,
        QuadletType::Pod,
        QuadletType::Image,
    ]
}

/// The registry is a bijection: each kind is found again from its token, the
/// tokens of two kinds differ, and a text names a kind only if it is that
/// kind's token.
pub proof fn lemma_registry_bijective(t: QuadletType, u: QuadletType, s: Seq<char>)
    ensures
        kind_for_token(token_of(t)) == Some(t),
        token_of(t) == token_of(u) ==> t == u,
        kind_for_token(s) == Some(t) ==> s == token_of(t),
{
    reveal_strlit("container");
    reveal_strlit("network");
    reveal_strlit("volume");
    reveal_strlit("kube");
    reveal_strlit("pod");
    reveal_strlit("image");
    assert("container"@.len() == 9);
    assert("network"@.len() == 7);
    assert("volume"@.len() == 6);
    assert("kube"@.len() == 4);
    assert("pod"@.len() == 3);
    assert("image"@.len() == 5);
}

impl QuadletType {
    /// The extension token of this kind: its file extension without the dot.
    pub fn extension(&self) -> (r: &'static str)
        ensures
            r@ == token_of(*self),
    {
        match self {
            QuadletType::Container => "container",
            QuadletType::Network => "network",
            QuadletType::Volume => "volume",
            QuadletType::Kube => "kube",
            QuadletType::Pod => "pod",
            QuadletType::Image => "image",
        }
    }

    /// The kind whose extension token is exactly `ext`; `None` for anything else.
    pub fn from_extension(ext: &str) -> (r: Option<QuadletType>)
        ensures
            r == kind_for_token(ext@),
    {
        let token = ext;
        if same_text(token, "container") {
            Some(QuadletType::Container)
        } else if same_text(token, "network") {
            Some(QuadletType::Network)
        } else if same_text(token, "volume") {
            Some(QuadletType::Volume)
        } else if same_text(token, "kube") {
            Some(QuadletType::Kube)
        } else if same_text(token, "pod") {
            Some(QuadletType::Pod)
        } else if same_text(token, "image") {
            Some(QuadletType::Image)
        } else {
            None
        }
    }

    /// The extension token of this kind.
    pub fn as_str(&self) -> (r: &'static str)
        ensures
            r@ == token_of(*self),
    {
        match self {
            QuadletType::Container => "container",
            QuadletType::Network => "network",
            QuadletType::Volume => "volume",
            QuadletType::Kube => "kube",
            QuadletType::Pod => "pod",
            QuadletType::Image => "image",
        }
    }

    /// Every kind, in the registry's order.
    pub fn all() -> (r: Vec<QuadletType>)
        ensures
            r@ == all_kinds(),
    {
        let r = vec![
            QuadletType::Container,
            QuadletType::Network,
            QuadletType::Volume,
            QuadletType::Kube,
            QuadletType::Pod,
            QuadletType::Image,
        ];
        assert(r@ =~= all_kinds());
        r
    }

    /// Whether files of this kind produce a runnable service unit whose live
    /// state can be queried.
    pub fn has_service_unit(&self) -> (r: bool)
        ensures
            r == (*self == QuadletType::Container),
    {
        match self {
            QuadletType::Container => true,
            _ => false,
        }
    }
}

/// The extension tokens of every kind, in the registry's order.
pub fn allowed_extensions() -> (r: Vec<&'static str>)
    ensures
        r@.len() == all_kinds().len(),
        forall|i: int| 0 <= i < r@.len() ==> (#[trigger] r@[i])@ == token_of(all_kinds()[i]),
{
    let kinds = QuadletType::all();
    let mut r: Vec<&'static str> = Vec::new();
    let mut i: usize = 0;
    while i < kinds.len()
        invariant
            i <= kinds@.len(),
            kinds@ == all_kinds(),
            r@.len() == i,
            forall|j: int| 0 <= j < i ==> (#[trigger] r@[j])@ == token_of(all_kinds()[j]),
        decreases kinds@.len() - i,
    {
        r.push(kinds[i].as_str());
        i = i + 1;
    }
    r
}

} // verus!
