//! Output options shared by every subcommand.
use vstd::prelude::*;

verus! {

/// Output/rendering options passed to every subcommand handler.
#[derive(Clone, Copy, Debug)]
pub struct OutputOpts {
    pub json: bool,
    pub plain: bool,
    pub no_header: bool,
}

} // verus!
