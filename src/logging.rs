use vstd::prelude::*;
use vstd::utf8::encode_utf8;
use crate::wire::{decimal, push_decimal, push_str};

verus! {

/// Hour of the day (0 to 11) on a twelve-hour clock, `secs` seconds after the epoch.
pub fn hour_12_of(secs: u64) -> (r: u64)
    ensures
        r == (secs / 3600) % 12,
{
    (secs / 3600) % 12
}

/// Hour of the day (0 to 23), `secs` seconds after the epoch.
pub fn hour_24_of(secs: u64) -> (r: u64)
    ensures
        r == (secs / 3600) % 24,
{
    (secs / 3600) % 24
}

/// Minute of the hour, `secs` seconds after the epoch.
pub fn minute_of(secs: u64) -> (r: u64)
    ensures
        r == (secs / 60) % 60,
{
    (secs / 60) % 60
}

/// Second of the minute, `secs` seconds after the epoch.
pub fn second_of(secs: u64) -> (r: u64)
    ensures
        r == secs % 60,
{
    secs % 60
}

#[derive(Debug, Clone, Copy, PartialEq, Eq, Structural)]
pub enum LogLevel {
    Info,
    Warn,
    Error,
}

/// Label and colour (an ANSI SGR code) of each level.
pub open spec fn level_label(l: LogLevel) -> Seq<u8> {
    match l {
        LogLevel::Info => seq![73u8, 78u8, 70u8, 79u8],
        LogLevel::Warn => seq![87u8, 65u8, 82u8, 78u8],
        LogLevel::Error => seq![69u8, 82u8, 82u8],
    }
}

pub open spec fn level_colour(l: LogLevel) -> Seq<u8> {
    match l {
        LogLevel::Info => seq![51u8, 52u8],
        LogLevel::Warn => seq![51u8, 51u8],
        LogLevel::Error => seq![51u8, 49u8],
    }
}

/// Decimal digits of `n`, padded with `0` on the left to two digits.
pub open spec fn two_digits(n: nat) -> Seq<u8> {
    if n < 10 {
        seq![48u8] + decimal(n)
    } else {
        decimal(n)
    }
}

/// `[HH:MM:SS] `
pub open spec fn clock_stamp(hour: nat, minute: nat, second: nat) -> Seq<u8> {
    seq![91u8] + two_digits(hour) + seq![58u8] + two_digits(minute) + seq![58u8] + two_digits(second)
        + seq![93u8, 32u8]
}

/// `[HH:MM:SS] ESC[<colour>m[<thread>/<LEVEL>]: <message>ESC[0m` and a line feed.
pub open spec fn log_line(
    level: LogLevel,
    hour: nat,
    minute: nat,
    second: nat,
    thread_name: Seq<char>,
    msg: Seq<char>,
) -> Seq<u8> {
    clock_stamp(hour, minute, second) + seq![27u8, 91u8] + level_colour(level) + seq![109u8, 91u8]
        + encode_utf8(thread_name) + seq![47u8] + level_label(level) + seq![93u8, 58u8, 32u8]
        + encode_utf8(msg) + seq![27u8, 91u8, 48u8, 109u8, 10u8]
}

fn push_two_digits(out: &mut Vec<u8>, n: u64)
    ensures
        final(out)@ == old(out)@ + two_digits(n as nat),
{
    if n < 10 {
        out.push(48u8);
    }
    push_decimal(out, n);
    assert(final(out)@ =~= old(out)@ + two_digits(n as nat));
}

fn push_clock_stamp(out: &mut Vec<u8>, hour: u64, minute: u64, second: u64)
    ensures
        final(out)@ == old(out)@ + clock_stamp(hour as nat, minute as nat, second as nat),
{
    out.push(91u8);
    push_two_digits(out, hour);
    out.push(58u8);
    push_two_digits(out, minute);
    out.push(58u8);
    push_two_digits(out, second);
    out.push(93u8);
    out.push(32u8);
    assert(final(out)@ =~= old(out)@ + clock_stamp(hour as nat, minute as nat, second as nat));
}

fn push_level_colour(out: &mut Vec<u8>, level: LogLevel)
    ensures
        final(out)@ == old(out)@ + level_colour(level),
{
    out.push(51u8);
    match level {
        LogLevel::Info => out.push(52u8),
        LogLevel::Warn => out.push(51u8),
        LogLevel::Error => out.push(49u8),
    }
    assert(final(out)@ =~= old(out)@ + level_colour(level));
}

fn push_level_label(out: &mut Vec<u8>, level: LogLevel)
    ensures
        final(out)@ == old(out)@ + level_label(level),
{
    match level {
        LogLevel::Info => {
            out.push(73u8);
            out.push(78u8);
            out.push(70u8);
            out.push(79u8);
        },
        LogLevel::Warn => {
            out.push(87u8);
            out.push(65u8);
            out.push(82u8);
            out.push(78u8);
        },
        LogLevel::Error => {
            out.push(69u8);
            out.push(82u8);
            out.push(82u8);
        },
    }
    assert(final(out)@ =~= old(out)@ + level_label(level));
}

/// The line that the logger writes for a message.
pub fn format_log_line(
    level: LogLevel,
    hour: u64,
    minute: u64,
    second: u64,
    thread_name: &str,
    msg: &str,
) -> (r: Vec<u8>)
    ensures
        r@ == log_line(level, hour as nat, minute as nat, second as nat, thread_name@, msg@),
{
    let mut out: Vec<u8> = Vec::new();
    push_clock_stamp(&mut out, hour, minute, second);
    out.push(27u8);
    out.push(91u8);
    push_level_colour(&mut out, level);
    out.push(109u8);
    out.push(91u8);
    push_str(&mut out, thread_name);
    out.push(47u8);
    push_level_label(&mut out, level);
    out.push(93u8);
    out.push(58u8);
    out.push(32u8);
    push_str(&mut out, msg);
    out.push(27u8);
    out.push(91u8);
    out.push(48u8);
    out.push(109u8);
    out.push(10u8);
    assert(out@ =~= log_line(level, hour as nat, minute as nat, second as nat, thread_name@, msg@));
    out
}

} // verus!
