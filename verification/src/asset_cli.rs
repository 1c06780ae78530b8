//! Argument parsing of the asset pipeline commands.
use vstd::prelude::*;
use crate::text::{chars_of, concat2, concat3, starts_with, starts_with_chars, split_on, split_chars, char_views};
use crate::textmap::TextMap;
use crate::numtext::{parse_unsigned, parses_unsigned, digits_value, unsigned_body, trim, trimmed, lower_ascii};
use crate::raster::{RasterFormat, AssetError, format_named, string_views, all_raster_formats};

verus! {

broadcast use vstd::string::group_string_axioms;

pub open spec fn str_views(v: Seq<&str>) -> Seq<Seq<char>> {
    v.map_values(|s: &str| s@)
}

pub open spec fn value_views(m: Map<Seq<char>, String>) -> Map<Seq<char>, Seq<char>> {
    m.map_values(|v: String| v@)
}

/// Outcome of scanning `--flag value` pairs.
pub enum FlagScan {
    Options(Map<Seq<char>, Seq<char>>),
    Failure(Seq<char>),
}

/// Scans `args[i..]` as `--flag value` pairs drawn from `allowed`, each at most once.
pub open spec fn scan_flags(
    args: Seq<Seq<char>>,
    allowed: Seq<Seq<char>>,
    i: nat,
    acc: Map<Seq<char>, Seq<char>>,
) -> FlagScan
    decreases args.len() - i,
{
    if i >= args.len() {
        FlagScan::Options(acc)
    } else {
        let flag = args[i as int];
        if !allowed.contains(flag) {
            FlagScan::Failure("unknown option "@ + flag)
        } else if i + 1 >= args.len() || starts_with(args[i + 1 as int], "--"@) {
            FlagScan::Failure(flag + " requires a value"@)
        } else if acc.contains_key(flag) {
            FlagScan::Failure("duplicate option "@ + flag)
        } else {
            scan_flags(args, allowed, i + 2, acc.insert(flag, args[i + 1 as int]))
        }
    }
}

/// The first of `required[j..]` that `options` lacks.
pub open spec fn first_missing(required: Seq<Seq<char>>, options: Map<Seq<char>, Seq<char>>, j: nat) -> Option<
    Seq<char>,
>
    decreases required.len() - j,
{
    if j >= required.len() {
        None
    } else if !options.contains_key(required[j as int]) {
        Some(required[j as int])
    } else {
        first_missing(required, options, j + 1)
    }
}

/// `command <path> --flag value ...` with the flags drawn from `allowed`
/// and every flag of `required` present.
pub open spec fn path_command(
    args: Seq<Seq<char>>,
    command: Seq<char>,
    allowed: Seq<Seq<char>>,
    required: Seq<Seq<char>>,
) -> Result<(Seq<char>, Map<Seq<char>, Seq<char>>), Seq<char>> {
    if args.len() == 0 || args[0] != command {
        Err("expected the "@ + command + " subcommand"@)
    } else if args.len() < 2 || starts_with(args[1], "--"@) {
        Err(command + " input is required"@)
    } else {
        match scan_flags(args, allowed, 2, Map::empty()) {
            FlagScan::Failure(m) => Err(m),
            FlagScan::Options(o) => match first_missing(required, o, 0) {
                Some(f) => Err(f + " is required"@),
                None => Ok((args[1], o)),
            },
        }
    }
}

fn same_text(a: &str, b: &str) -> (r: bool)
    ensures
        r == (a@ == b@),
{
    let x = chars_of(a);
    let y = chars_of(b);
    match crate::text::compare_chars(x.as_slice(), y.as_slice()) {
        crate::text::TextOrder::Equal => true,
        _ => false,
    }
}

fn among(list: &[&str], flag: &str) -> (r: bool)
    ensures
        r == str_views(list@).contains(flag@),
{
    let mut i: usize = 0;
    while i < list.len()
        invariant
            i <= list.len(),
            forall|k: int| 0 <= k < i ==> list@[k]@ != flag@,
        decreases list.len() - i,
    {
        if same_text(list[i], flag) {
            proof {
                assert(str_views(list@)[i as int] == flag@);
            }
            return true;
        }
        i = i + 1;
    }
    proof {
        if str_views(list@).contains(flag@) {
            let k = choose|k: int| 0 <= k < str_views(list@).len() && str_views(list@)[k] == flag@;
            assert(list@[k]@ == flag@);
        }
    }
    false
}

/// Parses a subcommand that takes one input path and `--flag value` options.
pub fn parse_path_command(
    arguments: &[String],
    command: &str,
    allowed: &[&str],
    required_flags: &[&str],
) -> (r: Result<(String, TextMap<String>), String>)
    ensures
        match path_command(string_views(arguments@), command@, str_views(allowed@), str_views(required_flags@)) {
            Ok((p, o)) => r matches Ok((path, options)) && path@ == p && options.wf() && value_views(options@) == o,
            Err(m) => r matches Err(e) && e@ == m,
        },
{
    proof {
        reveal_strlit("");
    }
    let ghost args = string_views(arguments@);
    if arguments.len() == 0 || !same_text(arguments[0].as_str(), command) {
        return Err(concat3("expected the ", command, " subcommand"));
    }
    let dashes = chars_of("--");
    if arguments.len() < 2 || starts_with_chars(chars_of(arguments[1].as_str()).as_slice(), dashes.as_slice()) {
        return Err(concat2(command, " input is required"));
    }
    let mut options: TextMap<String> = TextMap::new();
    let mut index: usize = 2;
    proof {
        assert(value_views(options@) =~= Map::<Seq<char>, Seq<char>>::empty());
    }
    while index < arguments.len()
        invariant
            args == string_views(arguments@),
            dashes@ == "--"@,
            ""@ == Seq::<char>::empty(),
            options.wf(),
            args.len() >= 2 && args[0] == command@ && !starts_with(args[1], "--"@),
            2 <= index,
            scan_flags(args, str_views(allowed@), 2, Map::empty()) == scan_flags(
                args,
                str_views(allowed@),
                index as nat,
                value_views(options@),
            ),
        decreases arguments.len() - index,
    {
        let flag = arguments[index].as_str();
        if !among(allowed, flag) {
            proof {
                assert(args[index as int] == flag@);
                assert(scan_flags(args, str_views(allowed@), index as nat, value_views(options@))
                    == FlagScan::Failure("unknown option "@ + flag@));
            }
            return Err(concat2("unknown option ", flag));
        }
        if index + 1 >= arguments.len() || starts_with_chars(
            chars_of(arguments[index + 1].as_str()).as_slice(),
            dashes.as_slice(),
        ) {
            return Err(concat2(flag, " requires a value"));
        }
        let key = chars_of(flag);
        if options.contains(key.as_slice()) {
            return Err(concat2("duplicate option ", flag));
        }
        let ghost before = options@;
        options.insert_new(key, arguments[index + 1].clone());
        proof {
            assert(value_views(options@) =~= value_views(before).insert(args[index as int], args[index + 1]));
        }
        index = index + 2;
    }
    let mut j: usize = 0;
    while j < required_flags.len()
        invariant
            options.wf(),
            ""@ == Seq::<char>::empty(),
            args == string_views(arguments@),
            args.len() >= 2 && args[0] == command@ && !starts_with(args[1], "--"@),
            scan_flags(args, str_views(allowed@), 2, Map::empty()) == FlagScan::Options(value_views(options@)),
            first_missing(str_views(required_flags@), value_views(options@), 0) == first_missing(
                str_views(required_flags@),
                value_views(options@),
                j as nat,
            ),
        decreases required_flags.len() - j,
    {
        let key = chars_of(required_flags[j]);
        if !options.contains(key.as_slice()) {
            return Err(concat2(required_flags[j], " is required"));
        }
        j = j + 1;
    }
    proof {
        reveal_strlit("");
    }
    Ok((arguments[1].clone(), options))
}

/// The value of a required option.
pub fn required<'a>(options: &'a TextMap<String>, flag: &str) -> (r: Result<&'a str, String>)
    requires
        options.wf(),
    ensures
        r is Ok <==> options@.contains_key(flag@),
        r matches Ok(v) ==> v@ == options@[flag@]@,
        r matches Err(e) ==> e@ == flag@ + " is required"@,
{
    let key = chars_of(flag);
    match options.get(key.as_slice()) {
        Some(v) => Ok(v.as_str()),
        None => {
            proof {
                reveal_strlit("");
            }
            Err(concat2(flag, " is required"))
        },
    }
}

/// Widths listed in `items[j..]`, or the message for the first bad item.
pub open spec fn widths_from(items: Seq<Seq<char>>, j: nat) -> Result<Seq<u32>, Seq<char>>
    decreases items.len() - j,
{
    if j >= items.len() {
        Ok(Seq::empty())
    } else if !parses_unsigned(trim(items[j as int]), u32::MAX as nat) {
        Err("invalid width "@ + items[j as int])
    } else {
        match widths_from(items, j + 1) {
            Ok(rest) => Ok(seq![digits_value(unsigned_body(trim(items[j as int]))) as u32] + rest),
            Err(m) => Err(m),
        }
    }
}

/// A comma-separated list of positive widths.
pub open spec fn widths_result(value: Seq<char>) -> Result<Seq<u32>, Seq<char>> {
    match widths_from(split_on(value, ','), 0) {
        Ok(w) => if w.len() == 0 || w.contains(0u32) {
            Err("widths must contain positive integers"@)
        } else {
            Ok(w)
        },
        Err(m) => Err(m),
    }
}

/// Parses `--widths`.
pub fn parse_widths(value: &str) -> (r: Result<Vec<u32>, String>)
    ensures
        match widths_result(value@) {
            Ok(w) => r matches Ok(v) && v@ == w,
            Err(m) => r matches Err(e) && e@ == m,
        },
{
    proof {
        reveal_strlit("");
    }
    let chars = chars_of(value);
    let items = split_chars(chars.as_slice(), ',');
    let ghost views = char_views(items@);
    let mut widths: Vec<u32> = Vec::new();
    let mut i: usize = 0;
    while i < items.len()
        invariant
            views == char_views(items@),
            views == split_on(value@, ','),
            ""@ == Seq::<char>::empty(),
            i <= items.len(),
            widths_from(views, 0) == match widths_from(views, i as nat) {
                Ok(rest) => Ok(widths@ + rest),
                Err(m) => Err(m),
            },
        decreases items.len() - i,
    {
        let t = trimmed(items[i].as_slice());
        match parse_unsigned(t.as_slice(), 0xFFFF_FFFF) {
            Some(v) => {
                let ghost before = widths@;
                widths.push(v as u32);
                proof {
                    assert(views[i as int] == items@[i as int]@);
                    match widths_from(views, (i + 1) as nat) {
                        Ok(rest) => {
                            assert(before + (seq![v as u32] + rest) =~= widths@ + rest);
                        },
                        Err(m) => {},
                    }
                }
            },
            None => {
                proof {
                    assert(views[i as int] == items@[i as int]@);
                }
                let item = crate::text::string_from_chars(items[i].as_slice());
                return Err(concat3("invalid width ", item.as_str(), ""));
            },
        }
        i = i + 1;
    }
    proof {
        assert(widths@ + Seq::<u32>::empty() =~= widths@);
        reveal_strlit("");
    }
    let mut k: usize = 0;
    while k < widths.len()
        invariant
            k <= widths.len(),
            widths_from(split_on(value@, ','), 0) == Ok::<Seq<u32>, Seq<char>>(widths@),
            forall|m: int| 0 <= m < k ==> widths@[m] != 0u32,
        decreases widths.len() - k,
    {
        if widths[k] == 0 {
            proof {
                assert(widths@.contains(0u32));
            }
            return Err("widths must contain positive integers".to_owned());
        }
        k = k + 1;
    }
    if widths.len() == 0 {
        return Err("widths must contain positive integers".to_owned());
    }
    Ok(widths)
}

/// The message that `RasterFormat::parse` gives for a bad name.
pub open spec fn format_error(item: Seq<char>) -> Seq<char> {
    "unsupported raster format "@ + lower_ascii(trim(item)) + "; expected avif, webp, or jpeg"@
}

/// Formats listed in `items[j..]`, or the message for the first bad item.
pub open spec fn formats_from(items: Seq<Seq<char>>, j: nat) -> Result<Seq<RasterFormat>, Seq<char>>
    decreases items.len() - j,
{
    if j >= items.len() {
        Ok(Seq::empty())
    } else {
        match format_named(lower_ascii(trim(items[j as int]))) {
            None => Err(format_error(items[j as int])),
            Some(f) => match formats_from(items, j + 1) {
                Ok(rest) => Ok(seq![f] + rest),
                Err(m) => Err(m),
            },
        }
    }
}

/// Parses `--formats`.
pub fn parse_formats(value: &str) -> (r: Result<Vec<RasterFormat>, String>)
    ensures
        match formats_from(split_on(value@, ','), 0) {
            Ok(f) => r matches Ok(v) && v@ == f,
            Err(m) => r matches Err(e) && e@ == m,
        },
{
    let chars = chars_of(value);
    let items = split_chars(chars.as_slice(), ',');
    let ghost views = char_views(items@);
    let mut formats: Vec<RasterFormat> = Vec::new();
    let mut i: usize = 0;
    while i < items.len()
        invariant
            views == char_views(items@),
            views == split_on(value@, ','),
            i <= items.len(),
            formats_from(views, 0) == match formats_from(views, i as nat) {
                Ok(rest) => Ok(formats@ + rest),
                Err(m) => Err(m),
            },
        decreases items.len() - i,
    {
        let item = crate::text::string_from_chars(items[i].as_slice());
        proof {
            assert(views[i as int] == items@[i as int]@);
        }
        match RasterFormat::parse(item.as_str()) {
            Ok(f) => {
                let ghost before = formats@;
                formats.push(f);
                proof {
                    match formats_from(views, (i + 1) as nat) {
                        Ok(rest) => {
                            assert(before + (seq![f] + rest) =~= formats@ + rest);
                        },
                        Err(m) => {},
                    }
                }
            },
            Err(e) => {
                return Err(e.message());
            },
        }
        i = i + 1;
    }
    proof {
        assert(formats@ + Seq::<RasterFormat>::empty() =~= formats@);
    }
    Ok(formats)
}

} // verus!

verus! {

/// Options of the `raster` command.
#[derive(Debug)]
pub struct RasterOptions {
    pub input: String,
    pub output: String,
    pub asset_id: String,
    pub widths: Vec<u32>,
    pub formats: Vec<RasterFormat>,
    pub quality: u8,
    pub manifest: Option<String>,
    pub ffmpeg: String,
    pub ffprobe: String,
}

/// What the `raster` options seen so far have set.
pub struct RasterScan {
    pub output: Option<Seq<char>>,
    pub asset_id: Option<Seq<char>>,
    pub widths: Option<Seq<u32>>,
    pub formats: Seq<RasterFormat>,
    pub quality: u8,
    pub manifest: Option<Seq<char>>,
    pub ffmpeg: Seq<char>,
    pub ffprobe: Seq<char>,
}

pub open spec fn raster_defaults() -> RasterScan {
    RasterScan {
        output: None,
        asset_id: None,
        widths: None,
        formats: seq![RasterFormat::Avif, RasterFormat::Webp, RasterFormat::Jpeg],
        quality: 78,
        manifest: None,
        ffmpeg: "ffmpeg"@,
        ffprobe: "ffprobe"@,
    }
}

/// Applies the `flag value` pairs of `args[i..]`, later pairs overriding earlier ones.
pub open spec fn raster_scan(args: Seq<Seq<char>>, i: nat, st: RasterScan) -> Result<RasterScan, Seq<char>>
    decreases args.len() - i,
{
    if i >= args.len() {
        Ok(st)
    } else if i + 1 >= args.len() {
        Err(args[i as int] + " requires a value"@)
    } else {
        let flag = args[i as int];
        let value = args[i + 1 as int];
        if flag == "--out"@ {
            raster_scan(args, i + 2, RasterScan { output: Some(value), ..st })
        } else if flag == "--id"@ {
            raster_scan(args, i + 2, RasterScan { asset_id: Some(value), ..st })
        } else if flag == "--widths"@ {
            match widths_result(value) {
                Ok(w) => raster_scan(args, i + 2, RasterScan { widths: Some(w), ..st }),
                Err(m) => Err(m),
            }
        } else if flag == "--formats"@ {
            match formats_from(split_on(value, ','), 0) {
                Ok(f) => raster_scan(args, i + 2, RasterScan { formats: f, ..st }),
                Err(m) => Err(m),
            }
        } else if flag == "--quality"@ {
            if parses_unsigned(value, 255) {
                raster_scan(args, i + 2, RasterScan { quality: digits_value(unsigned_body(value)) as u8, ..st })
            } else {
                Err("quality must be an integer from 1 to 100"@)
            }
        } else if flag == "--manifest"@ {
            raster_scan(args, i + 2, RasterScan { manifest: Some(value), ..st })
        } else if flag == "--ffmpeg"@ {
            raster_scan(args, i + 2, RasterScan { ffmpeg: value, ..st })
        } else if flag == "--ffprobe"@ {
            raster_scan(args, i + 2, RasterScan { ffprobe: value, ..st })
        } else {
            Err("unknown option "@ + flag)
        }
    }
}

/// The `raster` command line: its input, then options; `--out`, `--id` and
/// `--widths` are required.
pub open spec fn raster_command(args: Seq<Seq<char>>) -> Result<(Seq<char>, RasterScan), Seq<char>> {
    if args.len() == 0 || args[0] != "raster"@ {
        Err("expected the raster subcommand"@)
    } else if args.len() < 2 || starts_with(args[1], "--"@) {
        Err("raster input is required"@)
    } else {
        match raster_scan(args, 2, raster_defaults()) {
            Err(m) => Err(m),
            Ok(st) => if st.output is None {
                Err("--out is required"@)
            } else if st.asset_id is None {
                Err("--id is required"@)
            } else if st.widths is None {
                Err("--widths is required"@)
            } else {
                Ok((args[1], st))
            },
        }
    }
}

pub open spec fn option_view(o: Option<String>) -> Option<Seq<char>> {
    match o {
        Some(s) => Some(s@),
        None => None,
    }
}

/// Parses the `raster` command line.
pub fn parse_raster(arguments: &[String]) -> (r: Result<RasterOptions, String>)
    ensures
        match raster_command(string_views(arguments@)) {
            Ok((input, st)) => r matches Ok(o) && o.input@ == input && Some(o.output@) == st.output
                && Some(o.asset_id@) == st.asset_id && Some(o.widths@) == st.widths && o.formats@
                == st.formats && o.quality == st.quality && option_view(o.manifest) == st.manifest
                && o.ffmpeg@ == st.ffmpeg && o.ffprobe@ == st.ffprobe,
            Err(m) => r matches Err(e) && e@ == m,
        },
{
    let ghost args = string_views(arguments@);
    if arguments.len() == 0 || !same_text(arguments[0].as_str(), "raster") {
        return Err("expected the raster subcommand".to_owned());
    }
    let dashes = chars_of("--");
    if arguments.len() < 2 || starts_with_chars(chars_of(arguments[1].as_str()).as_slice(), dashes.as_slice()) {
        return Err("raster input is required".to_owned());
    }
    let mut output: Option<String> = None;
    let mut asset_id: Option<String> = None;
    let mut widths: Option<Vec<u32>> = None;
    let mut formats = all_raster_formats();
    let mut quality: u8 = 78;
    let mut manifest: Option<String> = None;
    let mut ffmpeg = "ffmpeg".to_owned();
    let mut ffprobe = "ffprobe".to_owned();
    let mut index: usize = 2;
    while index < arguments.len()
        invariant
            args == string_views(arguments@),
            args.len() >= 2 && args[0] == "raster"@ && !starts_with(args[1], "--"@),
            2 <= index,
            raster_scan(args, 2, raster_defaults()) == raster_scan(
                args,
                index as nat,
                RasterScan {
                    output: option_view(output),
                    asset_id: option_view(asset_id),
                    widths: match widths {
                        Some(w) => Some(w@),
                        None => None,
                    },
                    formats: formats@,
                    quality,
                    manifest: option_view(manifest),
                    ffmpeg: ffmpeg@,
                    ffprobe: ffprobe@,
                },
            ),
        decreases arguments.len() - index,
    {
        let flag = arguments[index].as_str();
        if index + 1 >= arguments.len() {
            return Err(concat2(flag, " requires a value"));
        }
        let value = arguments[index + 1].as_str();
        if same_text(flag, "--out") {
            output = Some(value.to_owned());
        } else if same_text(flag, "--id") {
            asset_id = Some(value.to_owned());
        } else if same_text(flag, "--widths") {
            match parse_widths(value) {
                Ok(w) => {
                    widths = Some(w);
                },
                Err(m) => {
                    return Err(m);
                },
            }
        } else if same_text(flag, "--formats") {
            match parse_formats(value) {
                Ok(f) => {
                    formats = f;
                },
                Err(m) => {
                    return Err(m);
                },
            }
        } else if same_text(flag, "--quality") {
            let digits = chars_of(value);
            match parse_unsigned(digits.as_slice(), 255) {
                Some(q) => {
                    quality = q as u8;
                },
                None => {
                    return Err("quality must be an integer from 1 to 100".to_owned());
                },
            }
        } else if same_text(flag, "--manifest") {
            manifest = Some(value.to_owned());
        } else if same_text(flag, "--ffmpeg") {
            ffmpeg = value.to_owned();
        } else if same_text(flag, "--ffprobe") {
            ffprobe = value.to_owned();
        } else {
            return Err(concat2("unknown option ", flag));
        }
        index = index + 2;
    }
    let output = match output {
        Some(o) => o,
        None => {
            return Err("--out is required".to_owned());
        },
    };
    let asset_id = match asset_id {
        Some(a) => a,
        None => {
            return Err("--id is required".to_owned());
        },
    };
    let widths = match widths {
        Some(w) => w,
        None => {
            return Err("--widths is required".to_owned());
        },
    };
    Ok(RasterOptions {
        input: arguments[1].clone(),
        output,
        asset_id,
        widths,
        formats,
        quality,
        manifest,
        ffmpeg,
        ffprobe,
    })
}

} // verus!
