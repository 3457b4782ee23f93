//! The command line's options and the decisions taken from them: what the
//! run does, how many workers extract, whether the output directory is
//! made, and how a ZIP entry's compression is named.

use vstd::prelude::*;
use crate::text::{decimal, push_decimal};

verus! {

/// The command line's options.
pub struct Args {
    pub payload_path: std::path::PathBuf,
    pub out: std::path::PathBuf,
    pub source_dir: std::path::PathBuf,
    pub user_agent: Option<String>,
    pub cookies: Option<String>,
    pub dns: Option<String>,
    pub images: String,
    pub threads: Option<usize>,
    pub list: bool,
    pub metadata: Option<String>,
    pub no_parallel: bool,
    pub skip_hash_check: bool,
    pub prefetch: bool,
    pub quiet: bool,
}

/// Where the payload comes from.
#[derive(Debug, Clone, Copy, PartialEq, Eq, Structural)]
pub enum PayloadType {
    LocalBin,
    LocalZip,
    RemoteBin,
    RemoteZip,
}

/// What a run does once the payload is parsed.
#[derive(Debug, Clone, Copy, PartialEq, Eq, Structural)]
pub enum RunMode {
    /// Save the metadata and stop.
    SaveMetadata,
    /// List the partitions, after saving the metadata when asked; with the
    /// metadata going to standard output, stop after saving it.
    List { save_metadata: bool, stop_after_metadata: bool },
    /// Extract the partitions.
    Extract,
}

pub open spec fn spec_run_mode(list: bool, metadata: bool, is_stdout: bool) -> RunMode {
    if metadata && !list {
        RunMode::SaveMetadata
    } else if list {
        RunMode::List { save_metadata: metadata, stop_after_metadata: metadata && is_stdout }
    } else {
        RunMode::Extract
    }
}

pub open spec fn spec_thread_count(no_parallel: bool, threads: Option<usize>, cpus: usize, partitions: usize) -> usize {
    if no_parallel {
        1
    } else {
        let t = match threads {
            Some(t) => t,
            None => cpus,
        };
        if t < partitions { t } else { partitions }
    }
}

impl Args {
    /// What the run does; `is_stdout` tells whether the output goes to
    /// standard output (`-o -`).
    pub fn run_mode(&self, is_stdout: bool) -> (r: RunMode)
        ensures
            r == spec_run_mode(self.list, self.metadata is Some, is_stdout),
    {
        if self.metadata.is_some() && !self.list {
            RunMode::SaveMetadata
        } else if self.list {
            RunMode::List {
                save_metadata: self.metadata.is_some(),
                stop_after_metadata: self.metadata.is_some() && is_stdout,
            }
        } else {
            RunMode::Extract
        }
    }

    /// Whether the output directory is made: not for standard output, and
    /// not when the metadata goes to a file named with an extension.
    pub fn should_create_out_dir(&self, is_stdout: bool, out_has_extension: bool) -> (r: bool)
        ensures
            r == (!is_stdout && !(self.metadata is Some && out_has_extension)),
    {
        !is_stdout && !(self.metadata.is_some() && out_has_extension)
    }

    /// How many partitions are extracted at once: one without parallelism,
    /// else the requested count or the number of CPUs, at most the number
    /// of partitions.
    pub fn thread_count(&self, available_cpus: usize, partitions: usize) -> (r: usize)
        ensures
            r == spec_thread_count(self.no_parallel, self.threads, available_cpus, partitions),
    {
        if self.no_parallel {
            1
        } else {
            let t = match self.threads {
                Some(t) => t,
                None => available_cpus,
            };
            if t < partitions { t } else { partitions }
        }
    }

    /// Whether the payload is downloaded ahead of extraction: only when
    /// asked for and only for remote payloads.
    pub fn use_prefetch(&self, payload_type: PayloadType) -> (r: bool)
        ensures
            r == (self.prefetch && (payload_type == PayloadType::RemoteZip || payload_type == PayloadType::RemoteBin)),
    {
        self.prefetch && (payload_type == PayloadType::RemoteZip || payload_type == PayloadType::RemoteBin)
    }
}

/// How a ZIP entry's compression method is shown.
pub open spec fn spec_method_label(m: u16) -> Seq<char> {
    if m == 0 {
        "STORED (0)"@
    } else if m == 8 {
        "DEFLATED (8)"@
    } else {
        "UNKNOWN ("@ + decimal(m as nat) + ")"@
    }
}

/// The label of a ZIP compression method: `STORED (0)`, `DEFLATED (8)`,
/// else `UNKNOWN (n)`.
pub fn compression_method_label(m: u16) -> (r: String)
    ensures
        r@ == spec_method_label(m),
{
    if m == 0 {
        "STORED (0)".to_string()
    } else if m == 8 {
        "DEFLATED (8)".to_string()
    } else {
        let mut s = String::new();
        s.append("UNKNOWN (");
        push_decimal(&mut s, m as u64);
        s.append(")");
        assert(s@ =~= spec_method_label(m));
        s
    }
}

/// What a run does, for every choice of options and output: with metadata
/// asked for and no listing, the metadata is saved and the run stops,
/// whether the output is standard output or not; a listing lists (saving
/// the metadata first when it is asked for, and stopping after it only
/// when it goes to standard output); otherwise the partitions are
/// extracted.
pub proof fn lemma_run_mode_choices(list: bool, metadata: bool, is_stdout: bool)
    ensures
        metadata && !list ==> spec_run_mode(list, metadata, is_stdout) == RunMode::SaveMetadata,
        spec_run_mode(list, metadata, true) is SaveMetadata <==> spec_run_mode(list, metadata, false) is SaveMetadata,
        list ==> spec_run_mode(list, metadata, is_stdout) == (RunMode::List {
            save_metadata: metadata,
            stop_after_metadata: metadata && is_stdout,
        }),
        !metadata && !list ==> spec_run_mode(list, metadata, is_stdout) == RunMode::Extract,
        spec_run_mode(list, metadata, is_stdout) is Extract <==> (!metadata && !list),
{
}

} // verus!
