//! Compressing MP3 files to AAC (M4A) with ffmpeg: the ffmpeg command of
//! each file, the choice of the files and the verdict of a run.

use vstd::prelude::*;
use crate::text::{chars_of, decimal, decimal_string, concat2, string_of, string_views, append_chars};
use crate::paths::{file_stem, file_stem_chars, join_path, join_path_chars};
use crate::media::{
    Conversion, DirEntry, InputProbe, Plan, has_extension, matching_files, file_mode_out_dir,
    dir_mode_out_dir, opt_view, path_has_extension, select_matching, file_out_dir, dir_out_dir,
    push_arg,
};

verus! {

/// The arguments of a compression run.
pub struct Mp3CompressArgs {
    pub input: String,
    pub output_dir: Option<String>,
    /// Keep two channels; otherwise the output is mono.
    pub stereo: bool,
}

/// Whether a path names an MP3 file (extension `mp3`, any ASCII case).
pub open spec fn spec_is_mp3(path: Seq<char>) -> bool {
    has_extension(path, "mp3"@)
}

/// Whether the path names an MP3 file, by its extension in any ASCII case.
pub fn is_mp3(path: &str) -> (r: bool)
    ensures
        r == spec_is_mp3(path@),
{
    path_has_extension(path, "mp3")
}

/// Where the compressed copy of `input` goes: `{stem}.m4a` in `out_dir`.
pub open spec fn mp3_output(input: Seq<char>, out_dir: Seq<char>) -> Seq<char> {
    join_path(out_dir, file_stem(input).unwrap() + ".m4a"@)
}

/// The arguments of the ffmpeg call: AAC at 96 kbit/s, one channel or two.
pub open spec fn mp3_args(input: Seq<char>, output: Seq<char>, stereo: bool) -> Seq<Seq<char>> {
    seq![
        "-i"@, input,
        "-ac"@, if stereo { "2"@ } else { "1"@ },
        "-c:a"@, "aac"@,
        "-b:a"@, "96k"@,
        output
    ]
}

pub open spec fn mp3_conversion_of(c: Conversion, input: Seq<char>, out_dir: Seq<char>, stereo: bool) -> bool {
    &&& c.input@ == input
    &&& c.output@ == mp3_output(input, out_dir)
    &&& string_views(c.args@) == mp3_args(input, mp3_output(input, out_dir), stereo)
}

/// The conversion of one MP3 file.
pub fn convert_file(input: &str, out_dir: &str, stereo: bool) -> (c: Conversion)
    requires
        spec_is_mp3(input@),
    ensures
        mp3_conversion_of(c, input@, out_dir@, stereo),
{
    let p = chars_of(input);
    let stem = match file_stem_chars(&p) {
        Some(s) => s,
        None => {
            assert(false);
            Vec::new()
        },
    };
    let mut name = stem;
    let suffix = chars_of(".m4a");
    append_chars(&mut name, suffix.as_slice());
    let d = chars_of(out_dir);
    let out_chars = join_path_chars(&d, &name);
    let out = string_of(out_chars.as_slice());
    let mut args: Vec<String> = Vec::new();
    push_arg(&mut args, "-i");
    push_arg(&mut args, input);
    push_arg(&mut args, "-ac");
    push_arg(&mut args, if stereo { "2" } else { "1" });
    push_arg(&mut args, "-c:a");
    push_arg(&mut args, "aac");
    push_arg(&mut args, "-b:a");
    push_arg(&mut args, "96k");
    push_arg(&mut args, out.as_str());
    assert(string_views(args@) =~= mp3_args(input@, out@, stereo));
    Conversion { input: String::from_str(input), output: out, args }
}

/// What a run over `args` does, given what the file system says of it.
pub open spec fn mp3_run_result(args: Mp3CompressArgs, probe: InputProbe, r: Result<Plan, String>) -> bool {
    let input = args.input@;
    if !probe.ffmpeg_found {
        r is Err && r->Err_0@ == "ffmpeg not found \u{2014} install it first"@
    } else if !probe.exists {
        r is Err && r->Err_0@ == "not found: "@ + input
    } else if probe.is_file {
        if !spec_is_mp3(input) {
            r is Err && r->Err_0@ == "not an MP3 file: "@ + input
        } else {
            r matches Ok(Plan::File(c)) && mp3_conversion_of(
                c,
                input,
                file_mode_out_dir(input, opt_view(args.output_dir)),
                args.stereo,
            )
        }
    } else {
        match probe.listing {
            Err(e) => r is Err && r->Err_0@ == "read dir "@ + input + ": "@ + e@,
            Ok(entries) => {
                let files = matching_files(entries@, "mp3"@);
                if files.len() == 0 {
                    r is Err && r->Err_0@ == "no MP3 files found in "@ + input
                } else {
                    r matches Ok(Plan::Dir(cs)) && cs.len() == files.len() && forall|i: int|
                        0 <= i < files.len() ==> mp3_conversion_of(
                            #[trigger] cs[i],
                            files[i],
                            dir_mode_out_dir(input, opt_view(args.output_dir)),
                            args.stereo,
                        )
                }
            },
        }
    }
}

/// Every file that the selection keeps is an MP3 file.
proof fn lemma_matching_is_mp3(listing: Seq<DirEntry>, i: int)
    requires
        0 <= i < matching_files(listing, "mp3"@).len(),
    ensures
        spec_is_mp3(matching_files(listing, "mp3"@)[i]),
    decreases listing.len(),
{
    let rest = matching_files(listing.drop_last(), "mp3"@);
    if i < rest.len() {
        lemma_matching_is_mp3(listing.drop_last(), i);
    }
}

/// Decides a whole compression run: checks ffmpeg and the input, then lists
/// the conversions to perform, one for a single MP3 file, or one for each
/// MP3 file directly inside a directory. ffmpeg itself runs elsewhere.
pub fn run(args: &Mp3CompressArgs, probe: &InputProbe) -> (r: Result<Plan, String>)
    ensures
        mp3_run_result(*args, *probe, r),
        !probe.is_file && r is Ok ==> (r->Ok_0 is Dir && forall|i: int| 0 <= i < r->Ok_0->Dir_0@.len()
            ==> (#[trigger] r->Ok_0->Dir_0@[i]).output@ == join_path(
                (match args.output_dir { Some(d) => d@, None => args.input@ }),
                file_stem(r->Ok_0->Dir_0@[i].input@)->Some_0 + ".m4a"@,
            )),
{
    if !probe.ffmpeg_found {
        return Err(String::from_str("ffmpeg not found \u{2014} install it first"));
    }
    let input = args.input.as_str();
    if !probe.exists {
        return Err(concat2("not found: ", input));
    }
    if probe.is_file {
        return run_file_mode(input, &args.output_dir, args.stereo);
    }
    match &probe.listing {
        Err(e) => {
            let mut m = String::from_str("read dir ");
            m.append(input);
            m.append(": ");
            m.append(e.as_str());
            Err(m)
        },
        Ok(entries) => {
            let files = select_matching(entries, "mp3");
            if files.len() == 0 {
                return Err(concat2("no MP3 files found in ", input));
            }
            let out_dir = dir_out_dir(input, &args.output_dir);
            let mut convs: Vec<Conversion> = Vec::new();
            for i in 0..files.len()
                invariant
                    string_views(files@) == matching_files(entries@, "mp3"@),
                    out_dir@ == dir_mode_out_dir(input@, opt_view(args.output_dir)),
                    convs.len() == i,
                    forall|k: int| 0 <= k < i ==> mp3_conversion_of(
                        #[trigger] convs@[k],
                        files@[k]@,
                        out_dir@,
                        args.stereo,
                    ),
            {
                proof {
                    lemma_matching_is_mp3(entries@, i as int);
                    assert(files@[i as int]@ == string_views(files@)[i as int]);
                }
                let c = convert_file(files[i].as_str(), out_dir.as_str(), args.stereo);
                convs.push(c);
            }
            proof {
                assert forall|k: int| 0 <= k < files@.len() implies files@[k]@ == matching_files(entries@, "mp3"@)[k] by {
                    assert(files@[k]@ == string_views(files@)[k]);
                }
            }
            Ok(Plan::Dir(convs))
        },
    }
}

/// The single-file part of a run: the file must be an MP3 file.
pub fn run_file_mode(input: &str, output_dir: &Option<String>, stereo: bool) -> (r: Result<Plan, String>)
    ensures
        !spec_is_mp3(input@) ==> r is Err && r->Err_0@ == "not an MP3 file: "@ + input@,
        spec_is_mp3(input@) ==> (r matches Ok(Plan::File(c)) && mp3_conversion_of(
            c,
            input@,
            file_mode_out_dir(input@, opt_view(*output_dir)),
            stereo,
        )),
{
    if !is_mp3(input) {
        return Err(concat2("not an MP3 file: ", input));
    }
    let out_dir = file_out_dir(input, output_dir);
    Ok(Plan::File(convert_file(input, out_dir.as_str(), stereo)))
}

/// The verdict of a directory run once its conversions have run:
/// `converted {succeeded}/{total} files` is reported, and a run in which
/// every conversion failed is an error.
pub fn finish_dir_run(succeeded: usize, total: usize) -> (r: (String, Result<(), String>))
    ensures
        r.0@ == "converted "@ + decimal(succeeded as nat) + "/"@ + decimal(total as nat) + " files"@,
        (succeeded == 0 && total > 0) <==> r.1 is Err,
        r.1 is Err ==> r.1->Err_0@ == "all "@ + decimal(total as nat) + " file(s) failed to convert"@,
{
    let s = decimal_string(succeeded as u64);
    let t = decimal_string(total as u64);
    let mut report = String::from_str("converted ");
    report.append(s.as_str());
    report.append("/");
    report.append(t.as_str());
    report.append(" files");
    if succeeded == 0 && total > 0 {
        let mut e = String::from_str("all ");
        e.append(t.as_str());
        e.append(" file(s) failed to convert");
        (report, Err(e))
    } else {
        (report, Ok(()))
    }
}

/// Law: a directory run writes each compressed copy next to its input,
/// inside the input directory, unless an output directory is given; the
/// copy is named after the input's stem with the extension `m4a`.
pub proof fn law_dir_outputs_in_place(args: Mp3CompressArgs, probe: InputProbe, r: Result<Plan, String>)
    requires
        mp3_run_result(args, probe, r),
        !probe.is_file,
        r is Ok,
    ensures
        r->Ok_0 is Dir,
        forall|i: int| 0 <= i < r->Ok_0->Dir_0@.len() ==> (#[trigger] r->Ok_0->Dir_0@[i]).output@ == join_path(
            (match args.output_dir { Some(d) => d@, None => args.input@ }),
            file_stem(r->Ok_0->Dir_0@[i].input@)->Some_0 + ".m4a"@,
        ),
{
}

} // verus!
