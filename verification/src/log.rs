//! One decoded log: a site's metadata together with its decoded
//! arguments, and its rendering through the format-string mini-language.

use vstd::prelude::*;

use crate::format::spec_fragments;
use crate::metadata::Level;
use crate::metadata::Metadata;
use crate::metadata::MetadataV;
use crate::render::render_log;
use crate::render::spec_bind;
use crate::text::lossy_string;
use crate::text::utf8_lossy;
use crate::var::elems_view;
use crate::var::Var;
use crate::var::VarV;

verus! {

/// One decoded log: metadata and arguments.
#[derive(Debug)]
pub struct Log {
    metadata: Metadata,
    args: Vec<Var>,
}

/// Mathematical model of a [`Log`].
pub struct LogV {
    pub metadata: MetadataV,
    pub args: Seq<VarV>,
}

impl View for Log {
    type V = LogV;

    closed spec fn view(&self) -> LogV {
        LogV { metadata: self.metadata@, args: elems_view(self.args@) }
    }
}

impl Log {
    /// Ties a site's metadata to its decoded arguments.
    pub fn new(metadata: Metadata, args: Vec<Var>) -> (r: Log)
        ensures
            r@.metadata == metadata@,
            r@.args == elems_view(args@),
    {
        Log { metadata, args }
    }

    /// The site's severity.
    pub fn get_level(&self) -> (r: Level)
        ensures
            r == self@.metadata.level,
    {
        self.metadata.level
    }

    /// The site's source-file name bytes.
    pub fn get_file(&self) -> (r: &Vec<u8>)
        ensures
            r@ == self@.metadata.file,
    {
        &self.metadata.file
    }

    /// The site's source line.
    pub fn get_line(&self) -> (r: u32)
        ensures
            r == self@.metadata.line,
    {
        self.metadata.line
    }

    /// The decoded arguments.
    pub fn get_args(&self) -> (r: &Vec<Var>)
        ensures
            elems_view(r@) == self@.args,
    {
        &self.args
    }

    /// The log's metadata.
    pub fn get_metadata(&self) -> (r: &Metadata)
        ensures
            r@ == self@.metadata,
    {
        &self.metadata
    }

    /// The rendered log line as bytes: the site's format string with each
    /// placeholder bound against the parameter names and arguments.
    pub fn render(&self) -> (r: Vec<u8>)
        ensures
            r@ == spec_bind(
                spec_fragments(self@.metadata.fmt),
                self@.metadata.names,
                self@.args,
                0,
            ),
    {
        let r = render_log(self.metadata.fmt.as_slice(), &self.metadata.names, &self.args);
        proof {
            assert(self.metadata.names.deep_view() =~~= self@.metadata.names);
        }
        r
    }

    /// The rendered log line as text.
    pub fn to_string(&self) -> (r: String)
        ensures
            r@ == utf8_lossy(
                spec_bind(
                    spec_fragments(self@.metadata.fmt),
                    self@.metadata.names,
                    self@.args,
                    0,
                ),
            ),
    {
        let bytes = self.render();
        lossy_string(&bytes)
    }
}

} // verus!
