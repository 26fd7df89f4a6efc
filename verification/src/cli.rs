//! The command line: a folder of photos, a frame rate and a video file.

use crate::text::{dec, parse_number, parsed, push_dec};
use vstd::prelude::*;

verus! {

/// What the command line asks for.
pub struct CliJob {
    pub dir: String,
    pub fps: u32,
    pub output: String,
}

/// Why a command line is refused.
#[derive(Clone, Copy, PartialEq, Eq, Structural, Debug)]
pub enum CliError {
    /// There are not three arguments.
    Usage,
    /// The frame rate is no number.
    NoNumber,
    /// The frame rate is not from 1 to 60.
    OutOfRange,
}

impl CliError {
    /// The message that the user sees.
    pub fn message(&self) -> (r: String)
        ensures
            r@ == (match *self {
                CliError::Usage => "用法：photo2video --cli <照片資料夾> <fps> <輸出檔>"@,
                CliError::NoNumber => "fps 必須是正整數"@,
                CliError::OutOfRange => "fps 必須介於 1 到 60"@,
            }),
    {
        match self {
            CliError::Usage => {
                "用法：photo2video --cli <照片資料夾> <fps> <輸出檔>".to_owned()
            },
            CliError::NoNumber => "fps 必須是正整數".to_owned(),
            CliError::OutOfRange => "fps 必須介於 1 到 60".to_owned(),
        }
    }
}

/// Reads the arguments: a folder, a frame rate from 1 to 60, and a video file.
pub fn parse_cli(args: &Vec<String>) -> (r: Result<CliJob, CliError>)
    ensures
        match r {
            Ok(job) => {
                &&& args.len() == 3
                &&& job.dir@ == args[0]@
                &&& parsed(args[1]@, u32::MAX as nat) == Some(job.fps as nat)
                &&& 1 <= job.fps <= 60
                &&& job.output@ == args[2]@
            },
            Err(CliError::Usage) => args.len() != 3,
            Err(CliError::NoNumber) => args.len() == 3 && parsed(
                args[1]@,
                u32::MAX as nat,
            ) is None,
            Err(CliError::OutOfRange) => args.len() == 3 && (parsed(args[1]@, u32::MAX as nat)
                matches Some(n) && !(1 <= n <= 60)),
        },
{
    if args.len() != 3 {
        return Err(CliError::Usage);
    }
    let fps: u32 = match parse_number(args[1].as_str(), u32::MAX as u64) {
        Some(n) => n as u32,
        None => {
            return Err(CliError::NoNumber);
        },
    };
    if fps < 1 || fps > 60 {
        return Err(CliError::OutOfRange);
    }
    Ok(CliJob { dir: args[0].clone(), fps, output: args[2].clone() })
}

/// What is told when the folder is not there.
pub fn no_folder_message(dir: &str) -> (r: String)
    ensures
        r@ == "找不到資料夾（或指定的不是資料夾）："@ + dir@,
{
    let mut r: String = "找不到資料夾（或指定的不是資料夾）：".to_owned();
    r.append(dir);
    r
}

/// What is told when there is no photo in the folder.
pub fn no_photos_message(dir: &str) -> (r: String)
    ensures
        r@ == "資料夾內沒有圖片："@ + dir@,
{
    let mut r: String = "資料夾內沒有圖片：".to_owned();
    r.append(dir);
    r
}

/// What is told before the conversion.
pub fn found_message(photos: usize, fps: u32) -> (r: String)
    ensures
        r@ == "共 "@ + dec(photos as nat) + " 張照片，fps="@ + dec(fps as nat),
{
    let mut r: String = "共 ".to_owned();
    push_dec(&mut r, photos as u128);
    r.append(" 張照片，fps=");
    push_dec(&mut r, fps as u128);
    r
}

} // verus!
