//! Construction of the measured command and the timing tool's argument list.
//!
//! The timing tool runs the single-run executor as a subprocess; the command
//! line is built shell-free from the backend identifier and the workload's
//! bytecode, calldata and gas limit, so what is measured is exactly the
//! executor invocation.

use vstd::prelude::*;
use crate::benchmarks::Benchmark;
use crate::hex::hex_char_of;
use crate::selection::string_views;

verus! {

/// The decimal rendering of a non-negative number, no leading zeros.
pub open spec fn dec_digits(n: int) -> Seq<char>
    decreases n,
{
    if n < 10 {
        seq![hex_char_of(n)]
    } else {
        dec_digits(n / 10) + seq![hex_char_of(n % 10)]
    }
}

/// Render a number in decimal.
pub fn u64_to_string(n: u64) -> (r: String)
    ensures
        r@ == dec_digits(n as int),
    decreases n,
{
    let digits = "0123456789abcdef";
    proof {
        reveal_strlit("0123456789abcdef");
    }
    let d = (n % 10) as usize;
    let last = digits.substring_ascii(d, d + 1);
    proof {
        assert(last@ =~= seq![hex_char_of(n as int % 10)]);
    }
    if n < 10 {
        last.to_owned()
    } else {
        let mut prefix = u64_to_string(n / 10);
        prefix.append(last);
        prefix
    }
}

/// The command line the timing tool measures: the executor binary told to
/// execute the workload's bytecode and calldata on one backend with the
/// workload's gas limit.
pub open spec fn executor_command_spec(
    exe: Seq<char>,
    evm: Seq<char>,
    bytecode: Seq<char>,
    calldata: Seq<char>,
    gas: u64,
) -> Seq<char> {
    exe + (" execute --evm ")@ + evm + (" --bytecode ")@ + bytecode + (" --calldata ")@ + calldata
        + (" --gas ")@ + dec_digits(gas as int)
}

/// Build the measured command line for one (workload, backend) pair.
pub fn build_executor_command(exe: &str, evm: &str, benchmark: &Benchmark) -> (r: String)
    ensures
        r@ == executor_command_spec(
            exe@,
            evm@,
            benchmark.bytecode@,
            benchmark.calldata@,
            benchmark.gas,
        ),
{
    let mut out = exe.to_owned();
    out.append(" execute --evm ");
    out.append(evm);
    out.append(" --bytecode ");
    out.append(benchmark.bytecode.as_str());
    out.append(" --calldata ");
    out.append(benchmark.calldata.as_str());
    out.append(" --gas ");
    let gas = u64_to_string(benchmark.gas);
    out.append(gas.as_str());
    out
}

/// The timing tool's argument list: exactly `iterations` measured runs,
/// `warmup` discarded warmup runs, machine-readable output to the scratch
/// path, no shell, the measured command, and quiet styling unless verbose.
pub open spec fn hyperfine_args_spec(
    iterations: int,
    warmup: int,
    export_path: Seq<char>,
    command: Seq<char>,
    verbose: bool,
) -> Seq<Seq<char>> {
    seq![
        ("--runs")@,
        dec_digits(iterations),
        ("--warmup")@,
        dec_digits(warmup),
        ("--export-json")@,
        export_path,
        ("--shell")@,
        ("none")@,
        command,
    ] + if !verbose {
        seq![("--style")@, ("basic")@]
    } else {
        Seq::empty()
    }
}

/// Build the timing tool's argument list for one measurement.
pub fn build_hyperfine_args(
    iterations: usize,
    warmup: usize,
    export_path: &str,
    command: &str,
    verbose: bool,
) -> (r: Vec<String>)
    ensures
        string_views(r@) == hyperfine_args_spec(
            iterations as int,
            warmup as int,
            export_path@,
            command@,
            verbose,
        ),
{
    let mut args: Vec<String> = Vec::new();
    args.push("--runs".to_owned());
    args.push(u64_to_string(iterations as u64));
    args.push("--warmup".to_owned());
    args.push(u64_to_string(warmup as u64));
    args.push("--export-json".to_owned());
    args.push(export_path.to_owned());
    args.push("--shell".to_owned());
    args.push("none".to_owned());
    args.push(command.to_owned());
    if !verbose {
        args.push("--style".to_owned());
        args.push("basic".to_owned());
    }
    proof {
        assert(string_views(args@) =~= hyperfine_args_spec(
            iterations as int,
            warmup as int,
            export_path@,
            command@,
            verbose,
        ));
    }
    args
}

} // verus!
