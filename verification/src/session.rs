//! A browsing session: the page at a URL, kept as parsed blocks.

use vstd::prelude::*;
use crate::text;
use crate::document::{self, Block, BlockV, Document, DocumentV};
use crate::parser::{self, ParseError};

verus! {

broadcast use vstd::string::group_string_axioms;

pub struct SessionState {
    pub url: String,
    pub blocks: Vec<Block>,
    pub metadata: Option<String>,
}

/// How a page that does not parse is reported.
pub open spec fn parse_failed(e: ParseError) -> Seq<char> {
    "Parse failed: "@ + e.spec_message()
}

fn parse_failed_exec(e: ParseError) -> (r: String)
    ensures
        r@ == parse_failed(e),
{
    let mut v = text::chars_of("Parse failed: ");
    let m = e.message();
    text::push_str(&mut v, m.as_str());
    text::string_from(v.as_slice())
}

impl SessionState {
    /// A session at `url` whose page, as fetched by the caller, is `body`.
    pub fn start(url: &str, body: &str) -> (r: Result<SessionState, String>)
        ensures
            match parser::spec_parse_document(body@) {
                Ok(d) => r matches Ok(s) && s.url@ == url@ && document::blocks_view(s.blocks@)
                    == d.blocks && document::opt_str(s.metadata) == d.metadata,
                Err(e) => r matches Err(m) && m@ == parse_failed(e),
            },
    {
        match parser::parse_document(body) {
            Ok(doc) => Ok(SessionState { url: String::from_str(url), blocks: doc.blocks, metadata: doc.metadata }),
            Err(e) => Err(parse_failed_exec(e)),
        }
    }

    /// Replaces the page with `body`, as fetched again by the caller; on a
    /// parse error the session is unchanged.
    pub fn refresh(&mut self, body: &str) -> (r: Result<(), String>)
        ensures
            final(self).url@ == old(self).url@,
            match parser::spec_parse_document(body@) {
                Ok(d) => r is Ok && document::blocks_view(final(self).blocks@) == d.blocks
                    && document::opt_str(final(self).metadata) == d.metadata,
                Err(e) => r matches Err(m) && m@ == parse_failed(e) && document::blocks_view(
                    final(self).blocks@,
                ) == document::blocks_view(old(self).blocks@) && document::opt_str(
                    final(self).metadata,
                ) == document::opt_str(old(self).metadata),
            },
    {
        match parser::parse_document(body) {
            Ok(doc) => {
                self.blocks = doc.blocks;
                self.metadata = doc.metadata;
                Ok(())
            },
            Err(e) => Err(parse_failed_exec(e)),
        }
    }

    /// The current page as a document.
    pub fn document(&self) -> (r: Document)
        ensures
            r@ == (DocumentV {
                blocks: document::blocks_view(self.blocks@),
                metadata: document::opt_str(self.metadata),
            }),
    {
        let mut blocks: Vec<Block> = Vec::new();
        let mut i: usize = 0;
        while i < self.blocks.len()
            invariant
                i <= self.blocks@.len(),
                document::blocks_view(blocks@) == document::blocks_view(self.blocks@).take(i as int),
            decreases self.blocks@.len() - i,
        {
            let b = document::copy_block(&self.blocks[i]);
            let ghost before = blocks@;
            blocks.push(b);
            assert(document::blocks_view(blocks@) =~= document::blocks_view(before).push(b@));
            assert(document::blocks_view(self.blocks@).take(i + 1) =~= document::blocks_view(
                self.blocks@,
            ).take(i as int).push(self.blocks@[i as int]@));
            i = i + 1;
        }
        assert(document::blocks_view(self.blocks@).take(self.blocks@.len() as int)
            =~= document::blocks_view(self.blocks@));
        let metadata = match &self.metadata {
            Some(m) => Some(m.clone()),
            None => None,
        };
        Document { blocks, metadata }
    }
}

} // verus!
