//! The syntax-tree features a language can support, and the query file and
//! titles of each.

use vstd::prelude::*;

verus! {

#[derive(Debug, Clone, Copy, PartialEq, Eq, Structural)]
pub enum TsFeature {
    Highlight,
    TextObject,
    AutoIndent,
}

impl TsFeature {
    /// Every feature, in the order they are listed.
    pub fn all() -> (r: Vec<TsFeature>)
        ensures
            r@ == seq![TsFeature::Highlight, TsFeature::TextObject, TsFeature::AutoIndent],
    {
        let mut v = Vec::new();
        v.push(TsFeature::Highlight);
        v.push(TsFeature::TextObject);
        v.push(TsFeature::AutoIndent);
        proof {
            assert(v@ =~= seq![TsFeature::Highlight, TsFeature::TextObject, TsFeature::AutoIndent]);
        }
        v
    }

    /// The name of the query file that provides the feature.
    pub fn runtime_filename(&self) -> (s: &'static str)
        ensures
            s@ == match *self {
                TsFeature::Highlight => "highlights.scm"@,
                TsFeature::TextObject => "textobjects.scm"@,
                TsFeature::AutoIndent => "indents.scm"@,
            },
    {
        match *self {
            TsFeature::Highlight => "highlights.scm",
            TsFeature::TextObject => "textobjects.scm",
            TsFeature::AutoIndent => "indents.scm",
        }
    }

    /// The feature's title in tables.
    pub fn long_title(&self) -> (s: &'static str)
        ensures
            s@ == match *self {
                TsFeature::Highlight => "Syntax Highlighting"@,
                TsFeature::TextObject => "Treesitter Textobjects"@,
                TsFeature::AutoIndent => "Auto Indent"@,
            },
    {
        match *self {
            TsFeature::Highlight => "Syntax Highlighting",
            TsFeature::TextObject => "Treesitter Textobjects",
            TsFeature::AutoIndent => "Auto Indent",
        }
    }

    /// The feature's short title.
    pub fn short_title(&self) -> (s: &'static str)
        ensures
            s@ == match *self {
                TsFeature::Highlight => "Highlight"@,
                TsFeature::TextObject => "Textobject"@,
                TsFeature::AutoIndent => "Indent"@,
            },
    {
        match *self {
            TsFeature::Highlight => "Highlight",
            TsFeature::TextObject => "Textobject",
            TsFeature::AutoIndent => "Indent",
        }
    }
}

} // verus!
