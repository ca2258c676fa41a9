//! The command line that the calling shell is given to evaluate.

use vstd::prelude::*;
use crate::path::append;

verus! {

/// `cd `, the start of the command that changes the directory.
pub open spec fn change_prefix() -> Seq<u8> {
    seq!['c' as u8, 'd' as u8, ' ' as u8]
}

/// `yarn run --cwd=`, the start of the command that runs a script.
pub open spec fn run_prefix() -> Seq<u8> {
    seq![
        'y' as u8, 'a' as u8, 'r' as u8, 'n' as u8, ' ' as u8, 'r' as u8, 'u' as u8, 'n' as u8,
        ' ' as u8, '-' as u8, '-' as u8, 'c' as u8, 'w' as u8, 'd' as u8, '=' as u8,
    ]
}

/// `echo "`, the start of the command that prints the listing.
pub open spec fn echo_prefix() -> Seq<u8> {
    seq!['e' as u8, 'c' as u8, 'h' as u8, 'o' as u8, ' ' as u8, '"' as u8]
}

/// The command for a resolved directory: with a script, the runner is
/// told to run it there; without one, the shell is told to go there.
pub open spec fn command_text(path: Seq<u8>, script: Option<Seq<u8>>) -> Seq<u8> {
    match script {
        Some(script) => run_prefix() + path + seq![' ' as u8] + script,
        None => change_prefix() + path,
    }
}

/// The command that prints a listing: the listing between double quotes,
/// handed to `echo`.
pub open spec fn listing_command_text(listing: Seq<u8>) -> Seq<u8> {
    echo_prefix() + listing + seq!['"' as u8]
}

/// The command for the resolved directory `path`.
pub fn command(path: &[u8], script: Option<&[u8]>) -> (r: Vec<u8>)
    ensures
        r@ == command_text(
            path@,
            match script {
                Some(script) => Some(script@),
                None => None,
            },
        ),
{
    match script {
        Some(script) => {
            let mut line: Vec<u8> = vec![
                'y' as u8, 'a' as u8, 'r' as u8, 'n' as u8, ' ' as u8, 'r' as u8, 'u' as u8,
                'n' as u8, ' ' as u8, '-' as u8, '-' as u8, 'c' as u8, 'w' as u8, 'd' as u8,
                '=' as u8,
            ];
            assert(line@ =~= run_prefix());
            append(&mut line, path);
            line.push(' ' as u8);
            append(&mut line, script);
            assert(line@ =~= run_prefix() + path@ + seq![' ' as u8] + script@);
            line
        },
        None => {
            let mut line: Vec<u8> = vec!['c' as u8, 'd' as u8, ' ' as u8];
            assert(line@ =~= change_prefix());
            append(&mut line, path);
            line
        },
    }
}

/// The command that prints `listing`.
pub fn listing_command(listing: &[u8]) -> (r: Vec<u8>)
    ensures
        r@ == listing_command_text(listing@),
{
    let mut line: Vec<u8> = vec!['e' as u8, 'c' as u8, 'h' as u8, 'o' as u8, ' ' as u8, '"' as u8];
    assert(line@ =~= echo_prefix());
    append(&mut line, listing);
    line.push('"' as u8);
    assert(line@ =~= echo_prefix() + listing@ + seq!['"' as u8]);
    line
}

} // verus!
