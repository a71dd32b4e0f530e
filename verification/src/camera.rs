//! The camera that records an experiment with `rpicam-vid`: where the video
//! and its timestamps go, and the command line that records them. Starting
//! and stopping the process is left to the caller.

use vstd::prelude::*;

verus! {

/// The recording program.
pub fn recording_program() -> (p: &'static str)
    ensures
        p@ == "rpicam-vid"@,
{
    "rpicam-vid"
}

/// The video file of the experiment in `dir`.
pub open spec fn video_file(dir: Seq<char>) -> Seq<char> {
    dir + "/video.h264"@
}

/// The frame timestamp file of the experiment in `dir`.
pub open spec fn timestamps_file(dir: Seq<char>) -> Seq<char> {
    dir + "/timestamps.txt"@
}

/// The arguments that record to `video` with frame timestamps in `pts`:
/// no time limit, flushed output, no preview, 1920x1080 at 10 fps.
pub open spec fn recording_args_for(video: Seq<char>, pts: Seq<char>) -> Seq<Seq<char>> {
    seq![
        "-o"@,
        video,
        "-t"@,
        "0"@,
        "--save-pts"@,
        pts,
        "--flush"@,
        "--nopreview"@,
        "--mode"@,
        "1920:1080:10:P"@,
    ]
}

/// Whether `vs` holds, one by one, the texts of `ss`.
pub open spec fn strings_match(vs: Seq<String>, ss: Seq<Seq<char>>) -> bool {
    &&& vs.len() == ss.len()
    &&& forall|k: int| 0 <= k < vs.len() ==> #[trigger] vs[k]@ == ss[k]
}

/// Where the camera writes an experiment's recording.
pub struct Camera {
    video_path: String,
    pts_path: String,
}

/// What a [`Camera`] holds: the video file and the timestamp file.
pub struct CameraView {
    pub video: Seq<char>,
    pub pts: Seq<char>,
}

impl View for Camera {
    type V = CameraView;

    closed spec fn view(&self) -> CameraView {
        CameraView { video: self.video_path@, pts: self.pts_path@ }
    }
}

impl Camera {
    /// The camera for the experiment in `experiment_dir`: the video goes to
    /// `video.h264` and the timestamps to `timestamps.txt` there.
    pub fn new(experiment_dir: &str) -> (c: Camera)
        ensures
            c@.video == video_file(experiment_dir@),
            c@.pts == timestamps_file(experiment_dir@),
    {
        let mut video_path = String::from_str(experiment_dir);
        video_path.append("/video.h264");
        let mut pts_path = String::from_str(experiment_dir);
        pts_path.append("/timestamps.txt");
        Camera { video_path, pts_path }
    }

    /// The video file.
    pub fn video_path(&self) -> (p: &String)
        ensures
            p@ == self@.video,
    {
        &self.video_path
    }

    /// The timestamp file.
    pub fn pts_path(&self) -> (p: &String)
        ensures
            p@ == self@.pts,
    {
        &self.pts_path
    }

    /// The arguments of the recording program for this camera.
    pub fn recording_args(&self) -> (args: Vec<String>)
        ensures
            strings_match(args@, recording_args_for(self@.video, self@.pts)),
    {
        let mut args: Vec<String> = Vec::new();
        args.push(String::from_str("-o"));
        args.push(self.video_path.clone());
        args.push(String::from_str("-t"));
        args.push(String::from_str("0"));
        args.push(String::from_str("--save-pts"));
        args.push(self.pts_path.clone());
        args.push(String::from_str("--flush"));
        args.push(String::from_str("--nopreview"));
        args.push(String::from_str("--mode"));
        args.push(String::from_str("1920:1080:10:P"));
        let ghost want = recording_args_for(self@.video, self@.pts);
        assert(args@[0]@ == want[0]);
        assert(strings_match(args@, want));
        args
    }
}

} // verus!
