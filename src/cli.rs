use vstd::prelude::*;

verus! {

/// How much the run logs.
#[derive(Debug, Clone, Copy, PartialEq, Eq, Structural)]
pub enum LogLevel {
    Verbose,
    Normal,
    Silent,
}

impl LogLevel {
    /// The log filter that the level sets when the environment sets none.
    pub fn default_filter(&self) -> (r: &'static str)
        ensures
            r@ == (match *self {
                LogLevel::Verbose => "debug"@,
                LogLevel::Normal => "info"@,
                LogLevel::Silent => "off"@,
            }),
    {
        match self {
            LogLevel::Verbose => "debug",
            LogLevel::Normal => "info",
            LogLevel::Silent => "off",
        }
    }
}

/// The settings of a run.
#[derive(Debug, Clone)]
pub struct Cli {
    /// The FASTA file of the references.
    pub reference: String,
    /// The pileup file of the modification calls.
    pub pileup: String,
    /// The motif pair specifications, `SEQ_MODTYPE1_POS1_MODTYPE2_POS2`.
    pub motifs: Option<Vec<String>>,
    /// The output directory.
    pub out: String,
    /// The minimum valid coverage of a kept call.
    pub min_cov: u32,
    /// The number of threads.
    pub threads: u32,
    /// The number of contigs loaded and evaluated at once.
    pub batch_size: u32,
    pub verbosity: LogLevel,
}

} // verus!
