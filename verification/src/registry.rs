//! The extension registry: the closed set of supported file extensions
//! and their fixed precedence order.

use vstd::prelude::*;

verus! {

/// File extensions supported by the shell.
///
/// `Nos` is the primary convention, `Fish` the legacy one; when candidate
/// files exist under both, the primary one wins (see `extension_order`).
#[derive(Debug, Clone, Copy, PartialEq, Eq, Structural)]
pub enum ShellExtension {
    Fish,
    Nos,
}

/// The suffix carried by an extension descriptor, as a sequence of
/// code points.
pub open spec fn spec_suffix(e: ShellExtension) -> Seq<char> {
    match e {
        ShellExtension::Fish => seq!['.', 'f', 'i', 's', 'h'],
        ShellExtension::Nos => seq!['.', 'n', 'o', 's'],
    }
}

/// The registry order: every supported extension exactly once, highest
/// precedence first. This is the single source of truth for precedence.
pub open spec fn extension_order() -> Seq<ShellExtension> {
    seq![ShellExtension::Nos, ShellExtension::Fish]
}

impl ShellExtension {
    /// The suffix of this extension, usable in contracts.
    pub open spec fn suffix(self) -> Seq<char> {
        spec_suffix(self)
    }

    /// Convert the extension to its suffix as a string slice.
    pub fn as_str(&self) -> (r: &'static str)
        ensures
            r@ == self.suffix(),
    {
        proof {
            reveal_strlit(".fish");
            reveal_strlit(".nos");
            assert(".fish"@ =~= ShellExtension::Fish.suffix());
            assert(".nos"@ =~= ShellExtension::Nos.suffix());
        }
        match self {
            ShellExtension::Fish => ".fish",
            ShellExtension::Nos => ".nos",
        }
    }

    /// Convert the extension to its suffix in wide (code point) form.
    pub fn as_wstr(&self) -> (r: Vec<char>)
        ensures
            r@ == self.suffix(),
    {
        let mut v: Vec<char> = Vec::new();
        v.push('.');
        match self {
            ShellExtension::Fish => {
                v.push('f');
                v.push('i');
                v.push('s');
                v.push('h');
            },
            ShellExtension::Nos => {
                v.push('n');
                v.push('o');
                v.push('s');
            },
        }
        proof {
            assert(v@ =~= self.suffix());
        }
        v
    }

    /// All supported extensions in priority order (highest priority first).
    pub fn all_extensions() -> (r: Vec<ShellExtension>)
        ensures
            r@ == extension_order(),
    {
        let mut v: Vec<ShellExtension> = Vec::new();
        v.push(ShellExtension::Nos);
        v.push(ShellExtension::Fish);
        proof {
            assert(v@ =~= extension_order());
        }
        v
    }
}

} // verus!
