//! Templates: dotfiles that may contain variables, conditionals, comments and prints.
use vstd::prelude::*;

use crate::block::{blocks_data, Block, BlockData};
use crate::diagnostic::Diagnostic;
use crate::parser::{max_source_len, sp_parse_from, Parser};
use crate::resolve::{sp_resolve_from, Lookup, Resolver, SystemVars};
use crate::session::{diags_data, has_error};
use crate::source::Source;
use crate::variables::Vars;
use vstd::utf8::{decode_utf8, valid_utf8};

verus! {

/// A parsed template: its source and the blocks found in it.
#[derive(Debug)]
pub struct Template<'a> {
    /// The source from which the template was parsed.
    source: Source<'a>,
    /// All parsed blocks, in the order they occur in `source`.
    blocks: Vec<Block>,
}

impl<'a> Template<'a> {
    /// The source is short enough for the positions of its blocks.
    #[verifier::type_invariant]
    spec fn fits(&self) -> bool {
        &&& self.source.spec_bytes().len() <= max_source_len()
        &&& crate::cuts::list_ok(self.source.spec_bytes(), blocks_data(self.blocks@))
    }

    /// The source of the template.
    pub closed spec fn spec_source(&self) -> Source<'a> {
        self.source
    }

    /// The mathematical content of the blocks.
    pub closed spec fn blocks_data(&self) -> Seq<BlockData> {
        blocks_data(self.blocks@)
    }

    /// Puts a template together from its source and blocks.
    pub(crate) fn from_parts(source: Source<'a>, blocks: Vec<Block>) -> (r: Self)
        requires
            source.spec_bytes().len() <= max_source_len(),
            crate::cuts::list_ok(source.spec_bytes(), blocks_data(blocks@)),
        ensures
            r.spec_source() == source,
            r.blocks_data() == blocks_data(blocks@),
    {
        Template { source, blocks }
    }

    /// Returns the source of the template.
    pub fn source(&self) -> (r: &Source<'a>)
        ensures
            *r == self.spec_source(),
            r.spec_bytes().len() <= max_source_len(),
    {
        proof { use_type_invariant(self); }
        &self.source
    }

    /// Returns the blocks of the template; every text and escaped block among
    /// them is cut next to ASCII bytes of the source.
    pub fn blocks(&self) -> (r: &Vec<Block>)
        ensures
            blocks_data(r@) == self.blocks_data(),
            crate::cuts::list_ok(self.spec_source().spec_bytes(), self.blocks_data()),
    {
        proof { use_type_invariant(self); }
        &self.blocks
    }

    /// Parses `source` into a template. Gives the template, unless an error was
    /// found, and all diagnostics reported while parsing.
    pub fn parse(source: Source<'a>) -> (r: (Option<Template<'a>>, Vec<Diagnostic>))
        requires
            source.spec_bytes().len() <= max_source_len(),
        ensures
            diags_data(r.1@) == sp_parse_from(source.spec_bytes(), 0).1,
            r.0 is Some <==> !has_error(sp_parse_from(source.spec_bytes(), 0).1),
            r.0 matches Some(t) ==> t.spec_source() == source && t.blocks_data() == sp_parse_from(source.spec_bytes(), 0).0,
    {
        let parser = Parser::new(source);
        let r = parser.parse();
        proof {
            assert(Seq::<crate::diagnostic::DiagData>::empty() + sp_parse_from(source.spec_bytes(), 0).1
                =~= sp_parse_from(source.spec_bytes(), 0).1);
        }
        r
    }

    /// Resolves the variables and if blocks of the template with the given
    /// profile and dotfile variables and the variables of the system. Gives the
    /// output, unless an error was found, and all diagnostics reported.
    pub fn resolve<PV: Vars, DV: Vars>(
        &self,
        profile_vars: Option<&PV>,
        dotfile_vars: Option<&DV>,
        system: &SystemVars,
    ) -> (r: (Option<String>, Vec<Diagnostic>))
        ensures
            ({
                let l = Lookup::of(profile_vars, dotfile_vars, system);
                let res = sp_resolve_from(self.spec_source().spec_bytes(), l, self.blocks_data(), false);
                &&& diags_data(r.1@) == res.1
                &&& r.0 is Some <==> !has_error(res.1)
                &&& valid_utf8(res.0)
                &&& r.0 matches Some(s) ==> s@ == decode_utf8(res.0)
            }),
    {
        proof {
            use_type_invariant(self);
            vstd::utf8::encode_utf8_valid_utf8(self.source.content@);
            crate::cuts::lemma_resolve_valid(
                self.source.spec_bytes(),
                Lookup::of(profile_vars, dotfile_vars, system),
                self.blocks_data(),
                false,
            );
        }
        let resolver = Resolver::new(self, profile_vars, dotfile_vars, system);
        resolver.resolve()
    }
}

} // verus!
