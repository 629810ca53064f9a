use crate::slice::SliceSpec;
use crate::stats::StatOperation;
use vstd::prelude::*;

verus! {

/// The program's options, as read from the command line.
#[derive(Debug, Clone)]
pub struct Args {
    /// Path to the dataset.
    pub file: String,
    /// `<var>:<dim>` to average over.
    pub mean: Option<(String, String)>,
    /// `<var>:<dim>` to sum over.
    pub sum: Option<(String, String)>,
    /// `<var>:<dim>` to take the minimum over.
    pub min: Option<(String, String)>,
    /// `<var>:<dim>` to take the maximum over.
    pub max: Option<(String, String)>,
    /// Where to save a result; printed when absent.
    pub output_netcdf: Option<String>,
    pub verbose: bool,
    /// Worker threads; all cores when absent.
    pub threads: Option<usize>,
    pub list_vars: bool,
    pub describe: Option<String>,
    pub summary: Option<String>,
    pub slice: Option<SliceSpec>,
}

/// The one thing a run does.
#[derive(Debug)]
pub enum Command {
    ListVariables,
    Reduce { operation: StatOperation, variable: String, dimension: String },
    Describe(String),
    Summary(String),
    Slice(SliceSpec),
    PrintMetadata,
}

/// The command the options ask for, first match in this order: listing,
/// mean, sum, minimum, maximum, description, summary, slice; with none of
/// them, the dataset's metadata is printed.
pub open spec fn command_spec(args: Args) -> Command {
    if args.list_vars {
        Command::ListVariables
    } else if let Some(p) = args.mean {
        Command::Reduce { operation: StatOperation::Mean, variable: p.0, dimension: p.1 }
    } else if let Some(p) = args.sum {
        Command::Reduce { operation: StatOperation::Sum, variable: p.0, dimension: p.1 }
    } else if let Some(p) = args.min {
        Command::Reduce { operation: StatOperation::Min, variable: p.0, dimension: p.1 }
    } else if let Some(p) = args.max {
        Command::Reduce { operation: StatOperation::Max, variable: p.0, dimension: p.1 }
    } else if let Some(v) = args.describe {
        Command::Describe(v)
    } else if let Some(v) = args.summary {
        Command::Summary(v)
    } else if let Some(sl) = args.slice {
        Command::Slice(sl)
    } else {
        Command::PrintMetadata
    }
}

/// The command the options ask for (see `command_spec`).
pub fn select_command(args: Args) -> (r: Command)
    ensures
        r == command_spec(args),
{
    if args.list_vars {
        return Command::ListVariables;
    }
    if let Some((variable, dimension)) = args.mean {
        return Command::Reduce { operation: StatOperation::Mean, variable, dimension };
    }
    if let Some((variable, dimension)) = args.sum {
        return Command::Reduce { operation: StatOperation::Sum, variable, dimension };
    }
    if let Some((variable, dimension)) = args.min {
        return Command::Reduce { operation: StatOperation::Min, variable, dimension };
    }
    if let Some((variable, dimension)) = args.max {
        return Command::Reduce { operation: StatOperation::Max, variable, dimension };
    }
    if let Some(v) = args.describe {
        return Command::Describe(v);
    }
    if let Some(v) = args.summary {
        return Command::Summary(v);
    }
    if let Some(s) = args.slice {
        return Command::Slice(s);
    }
    Command::PrintMetadata
}

} // verus!
