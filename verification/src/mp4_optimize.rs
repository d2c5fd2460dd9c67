//! Optimizing MP4 videos for the web with ffmpeg: the quality presets, the
//! ffmpeg command of each file and the choice of the files.

use vstd::prelude::*;
use crate::text::{chars_of, decimal, decimal_string, concat2, string_of, string_views, str_eq};
use crate::paths::{file_stem, file_stem_chars, join_path, join_path_chars};
use crate::media::{
    Conversion, DirEntry, InputProbe, Plan, has_extension, matching_files, file_mode_out_dir,
    dir_mode_out_dir, opt_view, path_has_extension, select_matching, file_out_dir, dir_out_dir,
    push_arg,
};

verus! {

/// The encoding presets.
#[derive(Debug, Clone, Copy, PartialEq, Eq, Structural)]
pub enum Quality {
    High,
    Medium,
    Low,
    Web,
}

/// The name by which a preset is chosen.
pub open spec fn quality_name(q: Quality) -> Seq<char> {
    match q {
        Quality::High => "high"@,
        Quality::Medium => "medium"@,
        Quality::Low => "low"@,
        Quality::Web => "web"@,
    }
}

/// The error for a quality name that names no preset.
pub open spec fn invalid_quality_message(s: Seq<char>) -> Seq<char> {
    "invalid quality '"@ + s + "', use high|medium|low|web"@
}

impl Quality {
    pub open spec fn spec_crf(self) -> u8 {
        match self {
            Quality::High => 18,
            Quality::Medium => 23,
            Quality::Low => 28,
            Quality::Web => 25,
        }
    }

    pub open spec fn spec_max_w(self) -> u32 {
        match self {
            Quality::High => 1920,
            Quality::Medium | Quality::Web => 1280,
            Quality::Low => 854,
        }
    }

    pub open spec fn spec_max_h(self) -> u32 {
        match self {
            Quality::High => 1080,
            Quality::Medium | Quality::Web => 720,
            Quality::Low => 480,
        }
    }

    /// The video bit rate in kbit/s.
    pub open spec fn spec_video_kbps(self) -> u32 {
        match self {
            Quality::High => 5000,
            Quality::Medium => 2500,
            Quality::Low => 1000,
            Quality::Web => 1500,
        }
    }

    pub open spec fn spec_video_bitrate(self) -> Seq<char> {
        match self {
            Quality::High => "5000k"@,
            Quality::Medium => "2500k"@,
            Quality::Low => "1000k"@,
            Quality::Web => "1500k"@,
        }
    }

    /// The H.264 profile: `high` for the high preset, the iOS-compatible
    /// `baseline` for the others.
    pub open spec fn spec_profile(self) -> Seq<char> {
        match self {
            Quality::High => "high"@,
            _ => "baseline"@,
        }
    }

    pub open spec fn spec_audio_bitrate(self) -> Seq<char> {
        match self {
            Quality::High => "192k"@,
            Quality::Medium | Quality::Web => "128k"@,
            Quality::Low => "96k"@,
        }
    }

    /// Reads a preset from its name; the names are case-sensitive.
    pub fn parse(s: &str) -> (r: Result<Quality, String>)
        ensures
            match r {
                Ok(q) => quality_name(q) == s@,
                Err(e) => e@ == invalid_quality_message(s@) && s@ != "high"@ && s@ != "medium"@
                    && s@ != "low"@ && s@ != "web"@,
            },
    {
        if str_eq(s, "high") {
            Ok(Quality::High)
        } else if str_eq(s, "medium") {
            Ok(Quality::Medium)
        } else if str_eq(s, "low") {
            Ok(Quality::Low)
        } else if str_eq(s, "web") {
            Ok(Quality::Web)
        } else {
            let mut e = String::from_str("invalid quality '");
            e.append(s);
            e.append("', use high|medium|low|web");
            Err(e)
        }
    }

    /// The constant rate factor.
    pub fn crf(self) -> (r: u8)
        ensures
            r == self.spec_crf(),
    {
        match self {
            Quality::High => 18,
            Quality::Medium => 23,
            Quality::Low => 28,
            Quality::Web => 25,
        }
    }

    /// The largest output width.
    pub fn max_w(self) -> (r: u32)
        ensures
            r == self.spec_max_w(),
            self.spec_max_h() * 16 <= r * 9 < self.spec_max_h() * 16 + 9,
    {
        match self {
            Quality::High => 1920,
            Quality::Medium | Quality::Web => 1280,
            Quality::Low => 854,
        }
    }

    /// The largest output height.
    pub fn max_h(self) -> (r: u32)
        ensures
            r == self.spec_max_h(),
            r * 16 <= self.spec_max_w() * 9 < r * 16 + 9,
    {
        match self {
            Quality::High => 1080,
            Quality::Medium | Quality::Web => 720,
            Quality::Low => 480,
        }
    }

    /// The video bit rate in kbit/s.
    pub fn video_kbps(self) -> (r: u32)
        ensures
            r == self.spec_video_kbps(),
    {
        match self {
            Quality::High => 5000,
            Quality::Medium => 2500,
            Quality::Low => 1000,
            Quality::Web => 1500,
        }
    }

    /// The video bit rate as ffmpeg reads it.
    pub fn video_bitrate(self) -> (r: &'static str)
        ensures
            r@ == self.spec_video_bitrate(),
    {
        match self {
            Quality::High => "5000k",
            Quality::Medium => "2500k",
            Quality::Low => "1000k",
            Quality::Web => "1500k",
        }
    }

    /// The H.264 profile.
    pub fn profile(self) -> (r: &'static str)
        ensures
            r@ == self.spec_profile(),
    {
        match self {
            Quality::High => "high",
            _ => "baseline",
        }
    }

    /// The audio bit rate as ffmpeg reads it.
    pub fn audio_bitrate(self) -> (r: &'static str)
        ensures
            r@ == self.spec_audio_bitrate(),
    {
        match self {
            Quality::High => "192k",
            Quality::Medium | Quality::Web => "128k",
            Quality::Low => "96k",
        }
    }

    /// The rate-control buffer: twice the video bit rate, in kbit/s.
    pub fn bufsize(self) -> (r: String)
        ensures
            r@ == decimal(2 * self.spec_video_kbps() as nat) + "k"@,
    {
        let n = self.video_kbps();
        let d = decimal_string(2 * n as u64);
        concat2(d.as_str(), "k")
    }

    /// The video filter: scale down to the preset's bounds, keeping the
    /// aspect ratio, at 30 frames per second.
    pub fn scale_filter(self) -> (r: String)
        ensures
            r@ == scale_filter_text(self),
    {
        let w = decimal_string(self.max_w() as u64);
        let h = decimal_string(self.max_h() as u64);
        let mut r = String::from_str("scale='min(");
        r.append(w.as_str());
        r.append(",iw)':'min(");
        r.append(h.as_str());
        r.append(",ih)':force_original_aspect_ratio=decrease,fps=30");
        r
    }
}

pub open spec fn scale_filter_text(q: Quality) -> Seq<char> {
    "scale='min("@ + decimal(q.spec_max_w() as nat) + ",iw)':'min("@ + decimal(q.spec_max_h() as nat)
        + ",ih)':force_original_aspect_ratio=decrease,fps=30"@
}

/// The arguments of the ffmpeg call that optimizes `input` into `output`.
pub open spec fn mp4_args(input: Seq<char>, output: Seq<char>, q: Quality) -> Seq<Seq<char>> {
    seq![
        "-i"@, input,
        "-c:v"@, "libx264"@,
        "-profile:v"@, q.spec_profile(),
        "-level:v"@, "3.0"@,
        "-crf"@, decimal(q.spec_crf() as nat),
        "-maxrate"@, q.spec_video_bitrate(),
        "-bufsize"@, decimal(2 * q.spec_video_kbps() as nat) + "k"@,
        "-vf"@, scale_filter_text(q),
        "-pix_fmt"@, "yuv420p"@,
        "-c:a"@, "aac"@,
        "-b:a"@, q.spec_audio_bitrate(),
        "-ac"@, "2"@,
        "-ar"@, "44100"@,
        "-movflags"@, "+faststart"@,
        "-preset"@, "slow"@,
        "-tune"@, "film"@,
        "-y"@, output
    ]
}

/// Where the optimized copy of `input` goes: `{stem}_optimized.mp4` in `out_dir`.
pub open spec fn mp4_output(input: Seq<char>, out_dir: Seq<char>) -> Seq<char> {
    join_path(out_dir, file_stem(input).unwrap() + "_optimized.mp4"@)
}

/// The conversion of `input` into `out_dir` at quality `q`.
pub open spec fn mp4_conversion_of(c: Conversion, input: Seq<char>, out_dir: Seq<char>, q: Quality) -> bool {
    &&& c.input@ == input
    &&& c.output@ == mp4_output(input, out_dir)
    &&& string_views(c.args@) == mp4_args(input, mp4_output(input, out_dir), q)
}

/// Whether a path names an MP4 file (extension `mp4`, any ASCII case).
pub open spec fn spec_is_mp4(path: Seq<char>) -> bool {
    has_extension(path, "mp4"@)
}

/// Whether the path names an MP4 file, by its extension in any ASCII case.
pub fn is_mp4(path: &str) -> (r: bool)
    ensures
        r == spec_is_mp4(path@),
{
    path_has_extension(path, "mp4")
}

/// The conversion of one MP4 file.
#[verifier::spinoff_prover]
pub fn convert_file(input: &str, out_dir: &str, quality: Quality) -> (c: Conversion)
    requires
        spec_is_mp4(input@),
    ensures
        mp4_conversion_of(c, input@, out_dir@, quality),
{
    let p = chars_of(input);
    let stem = match file_stem_chars(&p) {
        Some(s) => s,
        None => {
            assert(false);
            Vec::new()
        },
    };
    let mut name = stem;
    let suffix = chars_of("_optimized.mp4");
    crate::text::append_chars(&mut name, suffix.as_slice());
    let d = chars_of(out_dir);
    let out_chars = join_path_chars(&d, &name);
    let out = string_of(out_chars.as_slice());
    let crf = decimal_string(quality.crf() as u64);
    let bufsize = quality.bufsize();
    let vf = quality.scale_filter();
    let mut args: Vec<String> = Vec::new();
    push_arg(&mut args, "-i");
    push_arg(&mut args, input);
    push_arg(&mut args, "-c:v");
    push_arg(&mut args, "libx264");
    push_arg(&mut args, "-profile:v");
    push_arg(&mut args, quality.profile());
    push_arg(&mut args, "-level:v");
    push_arg(&mut args, "3.0");
    push_arg(&mut args, "-crf");
    push_arg(&mut args, crf.as_str());
    push_arg(&mut args, "-maxrate");
    push_arg(&mut args, quality.video_bitrate());
    push_arg(&mut args, "-bufsize");
    push_arg(&mut args, bufsize.as_str());
    push_arg(&mut args, "-vf");
    push_arg(&mut args, vf.as_str());
    push_arg(&mut args, "-pix_fmt");
    push_arg(&mut args, "yuv420p");
    push_arg(&mut args, "-c:a");
    push_arg(&mut args, "aac");
    push_arg(&mut args, "-b:a");
    push_arg(&mut args, quality.audio_bitrate());
    push_arg(&mut args, "-ac");
    push_arg(&mut args, "2");
    push_arg(&mut args, "-ar");
    push_arg(&mut args, "44100");
    push_arg(&mut args, "-movflags");
    push_arg(&mut args, "+faststart");
    push_arg(&mut args, "-preset");
    push_arg(&mut args, "slow");
    push_arg(&mut args, "-tune");
    push_arg(&mut args, "film");
    push_arg(&mut args, "-y");
    push_arg(&mut args, out.as_str());
    assert(string_views(args@) =~= mp4_args(input@, out@, quality));
    Conversion { input: String::from_str(input), output: out, args }
}

/// The arguments of an optimization run.
pub struct Mp4OptimizeArgs {
    pub input: String,
    pub output_dir: Option<String>,
    pub quality: Quality,
}

/// What a run over `args` does, given what the file system says of it.
pub open spec fn mp4_run_result(args: Mp4OptimizeArgs, probe: InputProbe, r: Result<Plan, String>) -> bool {
    let input = args.input@;
    if !probe.ffmpeg_found {
        r is Err && r->Err_0@ == "ffmpeg not found"@
    } else if !probe.exists {
        r is Err && r->Err_0@ == "not found: "@ + input
    } else if probe.is_file {
        if !spec_is_mp4(input) {
            r is Err && r->Err_0@ == "no MP4 files found in "@ + input
        } else {
            r matches Ok(Plan::File(c)) && mp4_conversion_of(
                c,
                input,
                file_mode_out_dir(input, opt_view(args.output_dir)),
                args.quality,
            )
        }
    } else {
        match probe.listing {
            Err(e) => r is Err && r->Err_0@ == "read dir "@ + input + ": "@ + e@,
            Ok(entries) => {
                let files = matching_files(entries@, "mp4"@);
                if files.len() == 0 {
                    r is Err && r->Err_0@ == "no MP4 files found in "@ + input
                } else {
                    r matches Ok(Plan::Dir(cs)) && cs.len() == files.len() && forall|i: int|
                        0 <= i < files.len() ==> mp4_conversion_of(
                            #[trigger] cs[i],
                            files[i],
                            dir_mode_out_dir(input, opt_view(args.output_dir)),
                            args.quality,
                        )
                }
            },
        }
    }
}

/// Decides a whole optimization run: checks ffmpeg and the input, then
/// lists the conversions to perform, one for a single MP4 file, or one for
/// each MP4 file directly inside a directory. ffmpeg itself runs elsewhere.
pub fn run(args: &Mp4OptimizeArgs, probe: &InputProbe) -> (r: Result<Plan, String>)
    ensures
        mp4_run_result(*args, *probe, r),
{
    if !probe.ffmpeg_found {
        return Err(String::from_str("ffmpeg not found"));
    }
    let input = args.input.as_str();
    if !probe.exists {
        return Err(concat2("not found: ", input));
    }
    if probe.is_file {
        return run_file_mode(input, &args.output_dir, args.quality);
    }
    match &probe.listing {
        Err(e) => {
            let mut m = String::from_str("read dir ");
            m.append(input);
            m.append(": ");
            m.append(e.as_str());
            Err(m)
        },
        Ok(entries) => {
            let files = select_matching(entries, "mp4");
            if files.len() == 0 {
                return Err(concat2("no MP4 files found in ", input));
            }
            let out_dir = dir_out_dir(input, &args.output_dir);
            let mut convs: Vec<Conversion> = Vec::new();
            for i in 0..files.len()
                invariant
                    string_views(files@) == matching_files(entries@, "mp4"@),
                    out_dir@ == dir_mode_out_dir(input@, opt_view(args.output_dir)),
                    convs.len() == i,
                    forall|k: int| 0 <= k < i ==> mp4_conversion_of(
                        #[trigger] convs@[k],
                        files@[k]@,
                        out_dir@,
                        args.quality,
                    ),
            {
                proof {
                    lemma_matching_is_mp4(entries@, i as int);
                    assert(files@[i as int]@ == string_views(files@)[i as int]);
                }
                let c = convert_file(files[i].as_str(), out_dir.as_str(), args.quality);
                convs.push(c);
            }
            proof {
                assert forall|k: int| 0 <= k < files@.len() implies files@[k]@ == matching_files(entries@, "mp4"@)[k] by {
                    assert(files@[k]@ == string_views(files@)[k]);
                }
            }
            Ok(Plan::Dir(convs))
        },
    }
}

/// The single-file part of a run: the file must be an MP4 file.
pub fn run_file_mode(input: &str, output_dir: &Option<String>, quality: Quality) -> (r: Result<Plan, String>)
    ensures
        !spec_is_mp4(input@) ==> r is Err && r->Err_0@ == "no MP4 files found in "@ + input@,
        spec_is_mp4(input@) ==> (r matches Ok(Plan::File(c)) && mp4_conversion_of(
            c,
            input@,
            file_mode_out_dir(input@, opt_view(*output_dir)),
            quality,
        )),
{
    if !is_mp4(input) {
        return Err(concat2("no MP4 files found in ", input));
    }
    let out_dir = file_out_dir(input, output_dir);
    Ok(Plan::File(convert_file(input, out_dir.as_str(), quality)))
}

/// The report of a directory run once its conversions have run.
pub fn dir_run_report(succeeded: usize, total: usize) -> (r: String)
    ensures
        r@ == decimal(succeeded as nat) + "/"@ + decimal(total as nat) + " files succeeded"@,
{
    let s = decimal_string(succeeded as u64);
    let t = decimal_string(total as u64);
    let mut r = s;
    r.append("/");
    r.append(t.as_str());
    r.append(" files succeeded");
    r
}

/// Law: the presets have distinct names, so a name read back by
/// `Quality::parse` gives the preset it names.
pub proof fn law_quality_names_distinct(a: Quality, b: Quality)
    ensures
        quality_name(a) == quality_name(b) ==> a == b,
{
    reveal_strlit("high");
    reveal_strlit("medium");
    reveal_strlit("low");
    reveal_strlit("web");
    if quality_name(a) == quality_name(b) && a != b {
        let na = quality_name(a);
        let nb = quality_name(b);
        assert(na.len() == nb.len());
        assert(na[0] == nb[0]);
    }
}

/// Law: the video bit rate given to ffmpeg is the preset's rate in kbit/s
/// followed by `k`, so the buffer size is twice the bit rate's number.
pub proof fn law_bitrate_text(q: Quality)
    ensures
        q.spec_video_bitrate() == decimal(q.spec_video_kbps() as nat) + "k"@,
{
    reveal_strlit("5000k");
    reveal_strlit("2500k");
    reveal_strlit("1000k");
    reveal_strlit("1500k");
    reveal_strlit("k");
    reveal_with_fuel(decimal, 5);
    assert(q.spec_video_bitrate() =~= decimal(q.spec_video_kbps() as nat) + "k"@);
}

/// Every file that the selection keeps is an MP4 file.
proof fn lemma_matching_is_mp4(listing: Seq<DirEntry>, i: int)
    requires
        0 <= i < matching_files(listing, "mp4"@).len(),
    ensures
        spec_is_mp4(matching_files(listing, "mp4"@)[i]),
    decreases listing.len(),
{
    let rest = matching_files(listing.drop_last(), "mp4"@);
    if i < rest.len() {
        lemma_matching_is_mp4(listing.drop_last(), i);
    }
}

/// Law: every preset bounds the output to a 16:9 frame: its width is the
/// 16:9 width of its height, rounded up to a whole pixel (1920x1080,
/// 1280x720, 854x480).
pub proof fn law_presets_widescreen(q: Quality)
    ensures
        q.spec_max_h() * 16 <= q.spec_max_w() * 9 < q.spec_max_h() * 16 + 9,
{
}

/// Law: the medium and the web preset share their frame; they differ in
/// rate factor, bit rates and profile only.
pub proof fn law_medium_web_same_frame()
    ensures
        Quality::Medium.spec_max_w() == Quality::Web.spec_max_w(),
        Quality::Medium.spec_max_h() == Quality::Web.spec_max_h(),
{
}

/// Law: a better preset never allows a smaller frame.
pub proof fn law_frames_ordered()
    ensures
        Quality::Low.spec_max_h() < Quality::Web.spec_max_h() < Quality::High.spec_max_h(),
        Quality::Low.spec_max_w() < Quality::Medium.spec_max_w() < Quality::High.spec_max_w(),
{
}

} // verus!
