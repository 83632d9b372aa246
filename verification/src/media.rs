//! The media pipeline: which encoder is used and how the stages are put together.
use crate::number;
use crate::text;
use crate::transport_clock;
use crate::transport_clock::ClockError;
use crate::wfd::Profile;
use vstd::prelude::*;

verus! {

/// Which encoder is asked for.
#[derive(Clone, Copy, Debug, PartialEq, Eq, Structural)]
pub enum Encoder {
    Auto,
    Vaapi,
    X264,
}

/// What is to be sent.
#[derive(Clone, Copy, Debug, PartialEq, Eq, Structural)]
pub struct Settings {
    pub profile: Profile,
    pub encoder: Encoder,
    pub width: u32,
    pub height: u32,
    pub fps: u32,
    pub idr_request_capability: bool,
    pub pcr_lead_ms: u32,
}

/// Where pictures and sound come from.
#[derive(Clone, Copy, Debug, PartialEq, Eq)]
pub enum Source<'a> {
    Desktop { fd: i32, node: u32, audio_sink: Option<&'a str> },
    Test { audio: bool },
}

/// Why there is no pipeline.
#[derive(Clone, Copy, Debug, PartialEq, Eq, Structural)]
pub enum MediaError {
    /// HEVC without the hardware encoder.
    HevcNeedsHardware,
    /// A lead above the multiplexer's own.
    InvalidLead,
}

impl MediaError {
    /// The message shown to the user.
    pub fn text(self) -> (r: &'static str)
        ensures
            r@ == self.message(),
    {
        match self {
            MediaError::HevcNeedsHardware => "HEVC requires the hardware VA encoder",
            MediaError::InvalidLead => "PCR lead must be 0..125ms",
        }
    }

    /// The text of each error.
    pub open spec fn message(self) -> Seq<char> {
        match self {
            MediaError::HevcNeedsHardware => "HEVC requires the hardware VA encoder"@,
            MediaError::InvalidLead => "PCR lead must be 0..125ms"@,
        }
    }
}

// ---------------------------------------------------------------------------
// Decisions
// ---------------------------------------------------------------------------

/// The hardware encoder of a profile.
pub open spec fn hardware_encoder(profile: Profile) -> Seq<char> {
    if profile == Profile::Hevc {
        "vah265enc"@
    } else {
        "vah264enc"@
    }
}

/// The hardware encoder of a profile.
pub fn hardware_encoder_name(profile: Profile) -> (r: &'static str)
    ensures
        r@ == hardware_encoder(profile),
{
    match profile {
        Profile::Hevc => "vah265enc",
        _ => "vah264enc",
    }
}

/// Whether the hardware encodes: as asked, or else where its encoder is installed.
pub open spec fn hardware_used(encoder: Encoder, installed: bool) -> bool {
    encoder == Encoder::Vaapi || (encoder == Encoder::Auto && installed)
}

/// Whether the hardware encodes. HEVC cannot do without.
pub fn choose_hardware(settings: &Settings, installed: bool) -> (r: Result<bool, MediaError>)
    ensures
        ({
            let used = hardware_used(settings.encoder, installed);
            if settings.profile == Profile::Hevc && !used {
                r == Err::<bool, MediaError>(MediaError::HevcNeedsHardware)
            } else {
                r == Ok::<bool, MediaError>(used)
            }
        }),
{
    let used = match settings.encoder {
        Encoder::Vaapi => true,
        Encoder::X264 => false,
        Encoder::Auto => installed,
    };
    match settings.profile {
        Profile::Hevc => {
            if !used {
                return Err(MediaError::HevcNeedsHardware);
            }
        },
        _ => {},
    }
    Ok(used)
}

/// The frames from one key frame to the next. A receiver that can ask for one gets the
/// longest interval that the encoder takes: 1024 for the hardware, for which zero would
/// mean automatic.
pub open spec fn key_interval(idr_request_capability: bool, hardware: bool, fps: u32) -> int {
    if !idr_request_capability {
        fps as int
    } else if hardware {
        1024
    } else {
        2_147_483_647
    }
}

/// The frames from one key frame to the next.
pub fn gop_frames(idr_request_capability: bool, hardware: bool, fps: u32) -> (r: u32)
    ensures
        r == key_interval(idr_request_capability, hardware, fps),
{
    if !idr_request_capability {
        fps
    } else if hardware {
        1024
    } else {
        2_147_483_647
    }
}

/// How far the clock is advanced to leave the lead that is asked for: the multiplexer
/// leaves 125 ms by itself.
pub fn pcr_advance(pcr_lead_ms: u32) -> (r: Result<u32, MediaError>)
    ensures
        if pcr_lead_ms <= 125 {
            r == Ok::<u32, MediaError>((125 - pcr_lead_ms) as u32)
        } else {
            r == Err::<u32, MediaError>(MediaError::InvalidLead)
        },
{
    if pcr_lead_ms > 125 {
        Err(MediaError::InvalidLead)
    } else {
        Ok(125 - pcr_lead_ms)
    }
}

/// The answer of a capture source to a question for its latency: it is live, whatever it
/// says, within the bounds that it gives. Says whether the answer was changed.
pub fn corrected_latency(live: bool, min: u64, max: Option<u64>) -> (r: (
    (bool, u64, Option<u64>),
    bool,
))
    ensures
        r.0 == (true, min, max),
        r.1 == !live,
{
    ((true, min, max), !live)
}

// ---------------------------------------------------------------------------
// The pipeline as text
// ---------------------------------------------------------------------------

/// A boolean in words.
pub open spec fn word(b: bool) -> Seq<char> {
    if b {
        "true"@
    } else {
        "false"@
    }
}

/// A boolean in words.
fn word_text(b: bool) -> (r: &'static str)
    ensures
        r@ == word(b),
{
    if b {
        "true"
    } else {
        "false"
    }
}

/// The encoder with its properties.
pub open spec fn encoder_stage(profile: Profile, hardware: bool, interval: int) -> Seq<char> {
    if hardware {
        hardware_encoder(profile) + " name=encoder rate-control="@ + (if profile == Profile::Hevc {
            "vcm"@
        } else {
            "cbr"@
        })
            + " bitrate=4096 cpb-size=204 b-frames=0 b-pyramid=false ref-frames=1 target-usage=7 aud=true key-int-max="@
            + number::decimal(interval) + " num-slices=1 qos=true "@ + (if profile
            == Profile::Hevc {
            Seq::empty()
        } else {
            "cabac="@ + word(profile == Profile::Rhp2) + " dct8x8=false"@
        })
    } else {
        "x264enc name=encoder tune=zerolatency speed-preset=veryfast bitrate=4096 vbv-buf-capacity=50 bframes=0 ref=1 key-int-max="@
            + number::decimal(interval) + " cabac="@ + word(profile == Profile::Rhp2)
            + " dct8x8=false"@
    }
}

/// The encoder with its properties.
fn encoder_text(profile: Profile, hardware: bool, interval: u32) -> (r: String)
    ensures
        r@ == encoder_stage(profile, hardware, interval as int),
{
    let high = matches!(profile, Profile::Rhp2);
    let hevc = matches!(profile, Profile::Hevc);
    let interval_text = number::decimal_text(interval as u64);
    if hardware {
        let mut s = hardware_encoder_name(profile).to_owned();
        s.append(" name=encoder rate-control=");
        if hevc {
            s.append("vcm");
        } else {
            s.append("cbr");
        }
        s.append(
            " bitrate=4096 cpb-size=204 b-frames=0 b-pyramid=false ref-frames=1 target-usage=7 aud=true key-int-max=",
        );
        s.append(interval_text.as_str());
        s.append(" num-slices=1 qos=true ");
        if !hevc {
            let mut options = "cabac=".to_owned();
            options.append(word_text(high));
            options.append(" dct8x8=false");
            s.append(options.as_str());
        } else {
            proof {
                assert(s@ + Seq::<char>::empty() =~= s@);
            }
        }
        s
    } else {
        let mut s =
            "x264enc name=encoder tune=zerolatency speed-preset=veryfast bitrate=4096 vbv-buf-capacity=50 bframes=0 ref=1 key-int-max=".to_owned();
        s.append(interval_text.as_str());
        s.append(" cabac=");
        s.append(word_text(high));
        s.append(" dct8x8=false");
        s
    }
}

/// The parser behind the encoder and the form that it gives out.
pub open spec fn parser_stage(profile: Profile) -> Seq<char> {
    if profile == Profile::Hevc {
        "h265parse config-interval=-1 ! video/x-h265,stream-format=byte-stream,alignment=au,profile=main,level=(string)4.1"@
    } else if profile == Profile::Rhp2 {
        "h264parse config-interval=-1 ! video/x-h264,stream-format=byte-stream,alignment=au,profile=high"@
    } else {
        "h264parse config-interval=-1 ! video/x-h264,stream-format=byte-stream,alignment=au,profile=constrained-baseline"@
    }
}

/// The parser behind the encoder and the form that it gives out.
fn parser_text(profile: Profile) -> (r: &'static str)
    ensures
        r@ == parser_stage(profile),
{
    match profile {
        Profile::Hevc => {
            "h265parse config-interval=-1 ! video/x-h265,stream-format=byte-stream,alignment=au,profile=main,level=(string)4.1"
        },
        Profile::Rhp2 => {
            "h264parse config-interval=-1 ! video/x-h264,stream-format=byte-stream,alignment=au,profile=high"
        },
        Profile::Baseline => {
            "h264parse config-interval=-1 ! video/x-h264,stream-format=byte-stream,alignment=au,profile=constrained-baseline"
        },
    }
}

/// A signed number in decimal.
pub open spec fn signed_decimal(n: int) -> Seq<char> {
    if n < 0 {
        "-"@ + number::decimal(-n)
    } else {
        number::decimal(n)
    }
}

/// A signed number in decimal.
fn signed_text(n: i32) -> (r: String)
    ensures
        r@ == signed_decimal(n as int),
{
    let wide: i64 = n as i64;
    if wide < 0 {
        let mut s = "-".to_owned();
        s.append(number::decimal_text((-wide) as u64).as_str());
        s
    } else {
        number::decimal_text(wide as u64)
    }
}

/// The source of the pictures.
pub open spec fn video_source(source: Source<'_>) -> Seq<char> {
    match source {
        Source::Desktop { fd, node, .. } => "pipewiresrc name=capture fd="@ + signed_decimal(
            fd as int,
        ) + " path="@ + number::decimal(node as int)
            + " keepalive-time=100 do-timestamp=true provide-clock=false"@,
        Source::Test { .. } => "videotestsrc name=capture is-live=true pattern=ball"@,
    }
}

/// The source of the sound, if there is one.
pub open spec fn audio_source(source: Source<'_>) -> Option<Seq<char>> {
    match source {
        Source::Desktop { audio_sink: Some(sink), .. } => Some(
            "pulsesrc name=audio_capture device="@ + sink@
                + ".monitor provide-clock=false do-timestamp=true buffer-time=40000 latency-time=10000"@,
        ),
        Source::Desktop { audio_sink: None, .. } => None,
        Source::Test { audio: true } => Some(
            "audiotestsrc name=audio_capture is-live=true samplesperbuffer=1024"@,
        ),
        Source::Test { audio: false } => None,
    }
}

/// The source of the pictures.
fn video_text(source: &Source<'_>) -> (r: String)
    ensures
        r@ == video_source(*source),
{
    match source {
        Source::Desktop { fd, node, .. } => {
            let mut s = "pipewiresrc name=capture fd=".to_owned();
            s.append(signed_text(*fd).as_str());
            s.append(" path=");
            s.append(number::decimal_text(*node as u64).as_str());
            s.append(" keepalive-time=100 do-timestamp=true provide-clock=false");
            s
        },
        Source::Test { .. } => "videotestsrc name=capture is-live=true pattern=ball".to_owned(),
    }
}

/// The source of the sound, if there is one.
fn audio_text(source: &Source<'_>) -> (r: Option<String>)
    ensures
        match audio_source(*source) {
            Some(t) => r is Some && r->Some_0@ == t,
            None => r is None,
        },
{
    match source {
        Source::Desktop { audio_sink, .. } => match audio_sink {
            Some(sink) => {
                let mut s = "pulsesrc name=audio_capture device=".to_owned();
                s.append(sink);
                s.append(
                    ".monitor provide-clock=false do-timestamp=true buffer-time=40000 latency-time=10000",
                );
                Some(s)
            },
            None => None,
        },
        Source::Test { audio } => if *audio {
            Some("audiotestsrc name=audio_capture is-live=true samplesperbuffer=1024".to_owned())
        } else {
            None
        },
    }
}

/// The sound, from its source to the multiplexer.
pub open spec fn audio_chain(source: Source<'_>, fdk: bool) -> Seq<char> {
    match audio_source(source) {
        None => Seq::empty(),
        Some(t) => t
            + " ! audioresample ! audioconvert ! audio/x-raw,rate=48000,channels=2 ! "@ + (if fdk {
            "fdkaacenc"@
        } else {
            "avenc_aac"@
        })
            + " name=audio_encoder ! aacparse ! audio/mpeg,mpegversion=4,stream-format=adts ! queue max-size-time=500000000 ! mux.sink_4352"@,
    }
}

/// The sound, from its source to the multiplexer.
fn audio_chain_text(source: &Source<'_>, fdk: bool) -> (r: String)
    ensures
        r@ == audio_chain(*source, fdk),
{
    match audio_text(source) {
        None => {
            let none = String::new();
            proof {
                assert(none@ =~= Seq::<char>::empty());
            }
            none
        },
        Some(t) => {
            let mut s = t;
            s.append(" ! audioresample ! audioconvert ! audio/x-raw,rate=48000,channels=2 ! ");
            if fdk {
                s.append("fdkaacenc");
            } else {
                s.append("avenc_aac");
            }
            s.append(
                " name=audio_encoder ! aacparse ! audio/mpeg,mpegversion=4,stream-format=adts ! queue max-size-time=500000000 ! mux.sink_4352",
            );
            s
        },
    }
}

/// The control of the media, both ways.
pub open spec fn control_chain(rtcp: Option<(Seq<char>, u16)>) -> Seq<char> {
    match rtcp {
        None => Seq::empty(),
        Some((host, port)) => "rtp.send_rtcp_src_0 ! udpsink name=rtcp_out host="@ + host + " port="@
            + number::decimal(port as int)
            + " close-socket=false sync=false async=false udpsrc name=rtcp_in close-socket=false caps=application/x-rtcp ! rtp.recv_rtcp_sink_0"@,
    }
}

/// The control of the media, both ways.
fn control_text(rtcp: Option<(&str, u16)>) -> (r: String)
    ensures
        r@ == control_chain(
            match rtcp {
                Some((host, port)) => Some((host@, port)),
                None => None,
            },
        ),
{
    match rtcp {
        None => {
            let none = String::new();
            proof {
                assert(none@ =~= Seq::<char>::empty());
            }
            none
        },
        Some((host, port)) => {
            let mut s = "rtp.send_rtcp_src_0 ! udpsink name=rtcp_out host=".to_owned();
            s.append(host);
            s.append(" port=");
            s.append(number::decimal_text(port as u64).as_str());
            s.append(
                " close-socket=false sync=false async=false udpsrc name=rtcp_in close-socket=false caps=application/x-rtcp ! rtp.recv_rtcp_sink_0",
            );
            s
        },
    }
}

/// Pictures of the size and rate that is asked for, with borders where the shape differs.
/// The pixels of a desktop are square: the source is held to that before it is scaled.
pub open spec fn fitted(settings: Settings, format: Seq<char>) -> Seq<char> {
    "video/x-raw,pixel-aspect-ratio=1/1 ! videorate drop-only=true ! videoscale name=fit add-borders=true n-threads=2 ! video/x-raw,width="@
        + number::decimal(settings.width as int) + ",height="@ + number::decimal(
        settings.height as int,
    ) + ",framerate="@ + number::decimal(settings.fps as int)
        + "/1,pixel-aspect-ratio=1/1 ! videoconvert n-threads=2 ! video/x-raw,format="@ + format + (
    if settings.profile == Profile::Hevc && format == "NV12"@ {
        ",colorimetry=bt709"@
    } else {
        Seq::empty()
    })
}

/// Pictures of the size and rate that is asked for.
pub fn fit_video(settings: &Settings, format: &str) -> (r: String)
    ensures
        r@ == fitted(*settings, format@),
{
    let mut s =
        "video/x-raw,pixel-aspect-ratio=1/1 ! videorate drop-only=true ! videoscale name=fit add-borders=true n-threads=2 ! video/x-raw,width=".to_owned();
    s.append(number::decimal_text(settings.width as u64).as_str());
    s.append(",height=");
    s.append(number::decimal_text(settings.height as u64).as_str());
    s.append(",framerate=");
    s.append(number::decimal_text(settings.fps as u64).as_str());
    s.append("/1,pixel-aspect-ratio=1/1 ! videoconvert n-threads=2 ! video/x-raw,format=");
    s.append(format);
    if matches!(settings.profile, Profile::Hevc) && text::same(format, "NV12") {
        s.append(",colorimetry=bt709");
    } else {
        proof {
            assert(s@ + Seq::<char>::empty() =~= s@);
        }
    }
    s
}

/// The whole pipeline.
pub open spec fn pipeline(
    settings: Settings,
    source: Source<'_>,
    target: (Seq<char>, u16),
    rtcp: Option<(Seq<char>, u16)>,
    hardware: bool,
    fdk: bool,
) -> Seq<char> {
    "rtpbin name=rtp "@ + video_source(source) + " ! "@ + fitted(
        settings,
        if hardware {
            "NV12"@
        } else {
            "I420"@
        },
    ) + " ! queue max-size-buffers=1 max-size-bytes=0 max-size-time=0 leaky=downstream ! "@
        + encoder_stage(
        settings.profile,
        hardware,
        key_interval(settings.idr_request_capability, hardware, settings.fps),
    ) + " ! "@ + parser_stage(settings.profile)
        + " ! queue max-size-time=500000000 ! mux.sink_4113 mpegtsmux name=mux alignment=0 ! queue max-size-buffers=1 ! rtpmp2tpay name=pay pt=33 mtu=1400 ssrc=1 max-ptime=1000000 perfect-rtptime=false timestamp-offset=0 seqnum-offset=0 ! rtp.send_rtp_sink_0 rtp.send_rtp_src_0 ! udpsink name=network host="@
        + target.0 + " port="@ + number::decimal(target.1 as int)
        + " bind-port=50000 sync=true async=false processing-deadline=0 "@ + control_chain(rtcp)
        + " "@ + audio_chain(source, fdk)
}

/// The whole pipeline: pictures from the source through the encoder, and sound, into a
/// transport stream that is sent to the target. Each ready batch of the multiplexer is
/// sent without waiting for the next picture.
pub fn pipeline_text(
    settings: &Settings,
    source: &Source<'_>,
    target: (&str, u16),
    rtcp: Option<(&str, u16)>,
    hardware: bool,
    fdk: bool,
) -> (r: String)
    ensures
        r@ == pipeline(
            *settings,
            *source,
            (target.0@, target.1),
            match rtcp {
                Some((host, port)) => Some((host@, port)),
                None => None,
            },
            hardware,
            fdk,
        ),
{
    let interval: u32 = gop_frames(settings.idr_request_capability, hardware, settings.fps);
    let mut s = "rtpbin name=rtp ".to_owned();
    s.append(video_text(source).as_str());
    s.append(" ! ");
    if hardware {
        s.append(fit_video(settings, "NV12").as_str());
    } else {
        s.append(fit_video(settings, "I420").as_str());
    }
    s.append(" ! queue max-size-buffers=1 max-size-bytes=0 max-size-time=0 leaky=downstream ! ");
    s.append(encoder_text(settings.profile, hardware, interval).as_str());
    s.append(" ! ");
    s.append(parser_text(settings.profile));
    s.append(
        " ! queue max-size-time=500000000 ! mux.sink_4113 mpegtsmux name=mux alignment=0 ! queue max-size-buffers=1 ! rtpmp2tpay name=pay pt=33 mtu=1400 ssrc=1 max-ptime=1000000 perfect-rtptime=false timestamp-offset=0 seqnum-offset=0 ! rtp.send_rtp_sink_0 rtp.send_rtp_src_0 ! udpsink name=network host=",
    );
    s.append(target.0);
    s.append(" port=");
    s.append(number::decimal_text(target.1 as u64).as_str());
    s.append(" bind-port=50000 sync=true async=false processing-deadline=0 ");
    s.append(control_text(rtcp).as_str());
    s.append(" ");
    s.append(audio_chain_text(source, fdk).as_str());
    s
}

// ---------------------------------------------------------------------------
// Batches of transport packets
// ---------------------------------------------------------------------------

/// A buffer of the media stream. Times are in nanoseconds.
#[derive(Debug, PartialEq, Eq)]
pub struct TsBuffer {
    pub bytes: Vec<u8>,
    pub pts: Option<u64>,
    pub dts: Option<u64>,
    pub duration: Option<u64>,
    pub flags: u32,
}

/// The bytes of buffers, one behind the other.
pub open spec fn joined(list: Seq<TsBuffer>) -> Seq<u8>
    decreases list.len(),
{
    if list.len() == 0 {
        Seq::empty()
    } else {
        joined(list.drop_last()) + list.last().bytes@
    }
}

/// The bytes of all buffers in one, with the times and flags of the first, and the clock
/// advanced. A batch of a single packet has an empty buffer behind it, which makes the
/// packetizer send it at once. Nothing comes of an empty list.
pub fn ready_ts_batch(list: &[TsBuffer], pcr_advance_ms: u32) -> (r: Result<
    Vec<TsBuffer>,
    ClockError,
>)
    ensures
        ({
            let all = joined(list@);
            let first = list@[0];
            if list@.len() == 0 {
                r is Ok && r->Ok_0@.len() == 0
            } else if pcr_advance_ms != 0 && transport_clock::check_batch(
                all,
                pcr_advance_ms,
            ) is Err {
                r == Err::<Vec<TsBuffer>, ClockError>(
                    transport_clock::check_batch(all, pcr_advance_ms)->Err_0,
                )
            } else {
                &&& r is Ok
                &&& r->Ok_0@.len() == if all.len() == 188 {
                    2int
                } else {
                    1int
                }
                &&& if pcr_advance_ms == 0 {
                    r->Ok_0@[0].bytes@ == all
                } else {
                    transport_clock::batch_advanced(all, r->Ok_0@[0].bytes@, pcr_advance_ms)
                }
                &&& r->Ok_0@[0].pts == first.pts
                &&& r->Ok_0@[0].dts == first.dts
                &&& r->Ok_0@[0].duration == first.duration
                &&& r->Ok_0@[0].flags == first.flags
                &&& all.len() == 188 ==> {
                    let flush = r->Ok_0@[1];
                    flush.bytes@.len() == 0 && flush.pts == first.pts && flush.dts is None
                        && flush.duration is None && flush.flags == 0
                }
            }
        }),
{
    let mut result: Vec<TsBuffer> = Vec::new();
    if list.len() == 0 {
        return Ok(result);
    }
    let mut bytes: Vec<u8> = Vec::new();
    let mut i: usize = 0;
    proof {
        assert(list@.take(0) =~= Seq::<TsBuffer>::empty());
    }
    while i < list.len()
        invariant
            i <= list@.len(),
            bytes@ == joined(list@.take(i as int)),
        decreases list@.len() - i,
    {
        bytes.extend_from_slice(list[i].bytes.as_slice());
        i = i + 1;
        proof {
            assert(list@.take(i as int).drop_last() =~= list@.take(i - 1));
            assert(bytes@ =~= joined(list@.take(i as int)));
        }
    }
    proof {
        assert(list@.take(i as int) =~= list@);
    }
    let size: usize = bytes.len();
    if pcr_advance_ms != 0 {
        transport_clock::advance_pcr(bytes.as_mut_slice(), pcr_advance_ms)?;
    }
    let pts = list[0].pts;
    result.push(
        TsBuffer {
            bytes,
            pts,
            dts: list[0].dts,
            duration: list[0].duration,
            flags: list[0].flags,
        },
    );
    if size == 188 {
        result.push(TsBuffer { bytes: Vec::new(), pts, dts: None, duration: None, flags: 0 });
    }
    Ok(result)
}

// ---------------------------------------------------------------------------
// Laws
// ---------------------------------------------------------------------------

/// The lead that is left is the one that was asked for: what the multiplexer leaves by
/// itself, less what the clock is advanced, in ticks of the clock reference.
pub proof fn law_lead_is_as_asked(lead_ms: u32, pcr: int, pts: int)
    requires
        lead_ms <= 125,
        pts == (pcr + 125 * 90) % 8_589_934_592,
        0 <= pcr < 8_589_934_592,
    ensures
        (pts - (pcr + (125 - lead_ms) * 90) % 8_589_934_592) % 8_589_934_592 == lead_ms * 90,
{
    let moved = (pcr + (125 - lead_ms) * 90) % 8_589_934_592;
    assert(moved == pcr + (125 - lead_ms) * 90 || moved == pcr + (125 - lead_ms) * 90
        - 8_589_934_592);
    assert(pts == pcr + 11_250 || pts == pcr + 11_250 - 8_589_934_592);
}

/// What stands in a stage stands in the pipeline.
proof fn lemma_stages(
    settings: Settings,
    source: Source<'_>,
    target: (Seq<char>, u16),
    rtcp: Option<(Seq<char>, u16)>,
    hardware: bool,
    fdk: bool,
    p: Seq<char>,
)
    ensures
        ({
            let all = pipeline(settings, source, target, rtcp, hardware, fdk);
            let format = if hardware {
                "NV12"@
            } else {
                "I420"@
            };
            let interval = key_interval(settings.idr_request_capability, hardware, settings.fps);
            &&& text::contains(video_source(source), p) ==> text::contains(all, p)
            &&& text::contains(fitted(settings, format), p) ==> text::contains(all, p)
            &&& text::contains(encoder_stage(settings.profile, hardware, interval), p)
                ==> text::contains(all, p)
            &&& text::contains(parser_stage(settings.profile), p) ==> text::contains(all, p)
            &&& text::contains(" ! queue max-size-time=500000000 ! mux.sink_4113 mpegtsmux name=mux alignment=0 ! queue max-size-buffers=1 ! rtpmp2tpay name=pay pt=33 mtu=1400 ssrc=1 max-ptime=1000000 perfect-rtptime=false timestamp-offset=0 seqnum-offset=0 ! rtp.send_rtp_sink_0 rtp.send_rtp_src_0 ! udpsink name=network host="@, p) ==> text::contains(all, p)
            &&& text::contains(" ! queue max-size-time=500000000 ! mux.sink_4113 mpegtsmux name=mux alignment=0 ! queue max-size-buffers=1 ! rtpmp2tpay name=pay pt=33 mtu=1400 ssrc=1 max-ptime=1000000 perfect-rtptime=false timestamp-offset=0 seqnum-offset=0 ! rtp.send_rtp_sink_0 rtp.send_rtp_src_0 ! udpsink name=network host="@ + target.0 + " port="@ + number::decimal(target.1 as int) + " bind-port=50000 sync=true async=false processing-deadline=0 "@, p) ==> text::contains(all, p)
            &&& text::contains(control_chain(rtcp), p) ==> text::contains(all, p)
            &&& text::contains(audio_chain(source, fdk), p) ==> text::contains(all, p)
        }),
{
    let format = if hardware {
        "NV12"@
    } else {
        "I420"@
    };
    let interval = key_interval(settings.idr_request_capability, hardware, settings.fps);
    let s0 = "rtpbin name=rtp "@;
    text::lemma_kept(s0, video_source(source), p);
    let s1 = s0 + video_source(source);
    text::lemma_kept(s1, " ! "@, p);
    let s2 = s1 + " ! "@;
    text::lemma_kept(s2, fitted(settings, format), p);
    let s3 = s2 + fitted(settings, format);
    text::lemma_kept(s3, " ! queue max-size-buffers=1 max-size-bytes=0 max-size-time=0 leaky=downstream ! "@, p);
    let s4 = s3 + " ! queue max-size-buffers=1 max-size-bytes=0 max-size-time=0 leaky=downstream ! "@;
    text::lemma_kept(s4, encoder_stage(settings.profile, hardware, interval), p);
    let s5 = s4 + encoder_stage(settings.profile, hardware, interval);
    text::lemma_kept(s5, " ! "@, p);
    let s6 = s5 + " ! "@;
    text::lemma_kept(s6, parser_stage(settings.profile), p);
    let s7 = s6 + parser_stage(settings.profile);
    let network = " ! queue max-size-time=500000000 ! mux.sink_4113 mpegtsmux name=mux alignment=0 ! queue max-size-buffers=1 ! rtpmp2tpay name=pay pt=33 mtu=1400 ssrc=1 max-ptime=1000000 perfect-rtptime=false timestamp-offset=0 seqnum-offset=0 ! rtp.send_rtp_sink_0 rtp.send_rtp_src_0 ! udpsink name=network host="@ + target.0 + " port="@ + number::decimal(target.1 as int) + " bind-port=50000 sync=true async=false processing-deadline=0 "@;
    text::lemma_kept(s7, " ! queue max-size-time=500000000 ! mux.sink_4113 mpegtsmux name=mux alignment=0 ! queue max-size-buffers=1 ! rtpmp2tpay name=pay pt=33 mtu=1400 ssrc=1 max-ptime=1000000 perfect-rtptime=false timestamp-offset=0 seqnum-offset=0 ! rtp.send_rtp_sink_0 rtp.send_rtp_src_0 ! udpsink name=network host="@, p);
    let s8 = s7 + " ! queue max-size-time=500000000 ! mux.sink_4113 mpegtsmux name=mux alignment=0 ! queue max-size-buffers=1 ! rtpmp2tpay name=pay pt=33 mtu=1400 ssrc=1 max-ptime=1000000 perfect-rtptime=false timestamp-offset=0 seqnum-offset=0 ! rtp.send_rtp_sink_0 rtp.send_rtp_src_0 ! udpsink name=network host="@;
    text::lemma_kept(s8, target.0, p);
    let s9 = s8 + target.0;
    text::lemma_kept(s9, " port="@, p);
    let s10 = s9 + " port="@;
    text::lemma_kept(s10, number::decimal(target.1 as int), p);
    let s11 = s10 + number::decimal(target.1 as int);
    text::lemma_kept(s11, " bind-port=50000 sync=true async=false processing-deadline=0 "@, p);
    let s12 = s11 + " bind-port=50000 sync=true async=false processing-deadline=0 "@;
    assert(s12 =~= s7 + network);
    text::lemma_kept(s7, network, p);
    text::lemma_kept(s12, control_chain(rtcp), p);
    let s13 = s12 + control_chain(rtcp);
    text::lemma_kept(s13, " "@, p);
    let s14 = s13 + " "@;
    text::lemma_kept(s14, audio_chain(source, fdk), p);
}

/// A desktop is captured by the element that takes the descriptor and the node of the portal:
/// among the words of the pipeline, those behind its name give the one as `fd` and the other as
/// `path`, and each reads back as the number that was given.
pub proof fn law_the_desktop_is_captured(
    settings: Settings,
    fd: i32,
    node: u32,
    audio_sink: Option<&str>,
    target: (Seq<char>, u16),
    rtcp: Option<(Seq<char>, u16)>,
    hardware: bool,
    fdk: bool,
)
    ensures
        ({
            let words = text::fields(
                pipeline(
                    settings,
                    Source::Desktop { fd, node, audio_sink },
                    target,
                    rtcp,
                    hardware,
                    fdk,
                ),
            );
            &&& words.len() >= 6
            &&& words[2] == "pipewiresrc"@
            &&& words[3] == "name=capture"@
            &&& text::starts_with(words[4], "fd="@)
            &&& fd >= 0 ==> number::number(words[4].skip(3), 10, 0x7fff_ffff) == Some(fd as int)
            &&& fd < 0 ==> words[4][3] == '-' && number::number(words[4].skip(4), 10, 0x8000_0000)
                == Some(-fd)
            &&& text::starts_with(words[5], "path="@)
            &&& number::number(words[5].skip(5), 10, 0xffff_ffff) == Some(node as int)
        }),
{
    let source = Source::Desktop { fd, node, audio_sink };
    let all = pipeline(settings, source, target, rtcp, hardware, fdk);
    let a = signed_decimal(fd as int);
    let b = number::decimal(node as int);
    let w4 = "fd="@ + a;
    let w5 = "path="@ + b;
    let start = "rtpbin name=rtp "@ + video_source(source);
    let rest = all.skip(start.len() as int);
    lemma_pipeline_start(settings, source, target, rtcp, hardware, fdk);
    assert(all =~= start + rest);
    lemma_number_word(fd as int);
    lemma_number_word(node as int);
    lemma_capture_words(a, b, rest);
    let words = text::fields(all);
    reveal_strlit("fd=");
    reveal_strlit("path=");
    reveal_strlit("-");
    assert(w4.take(3) =~= "fd="@);
    assert(w5.take(5) =~= "path="@);
    assert(w5.skip(5) =~= b);
    assert(w4.skip(3) =~= a);
    number::law_decimal_reads_back(node as int, 0xffff_ffff);
    if fd >= 0 {
        number::law_decimal_reads_back(fd as int, 0x7fff_ffff);
    } else {
        assert(w4.skip(4) =~= number::decimal(-fd));
        number::law_decimal_reads_back(-fd, 0x8000_0000);
    }
}

/// The words in front of a pipeline.
proof fn lemma_capture_words(a: Seq<char>, b: Seq<char>, rest: Seq<char>)
    requires
        text::is_without_space(a),
        text::is_without_space(b),
    ensures
        ({
            let words = text::fields(
                "rtpbin name=rtp "@ + ("pipewiresrc name=capture fd="@ + a + " path="@ + b
                    + " keepalive-time=100 do-timestamp=true provide-clock=false"@) + rest,
            );
            &&& words.len() >= 6
            &&& words[2] == "pipewiresrc"@
            &&& words[3] == "name=capture"@
            &&& words[4] == "fd="@ + a
            &&& words[5] == "path="@ + b
        }),
{
    let later = " keepalive-time=100 do-timestamp=true provide-clock=false"@.skip(1) + rest;
    let sp = seq![' '];
    let w4 = "fd="@ + a;
    let w5 = "path="@ + b;
    lemma_capture_text(a, b, rest);
    lemma_capture_literals();
    let r5 = w5 + sp + later;
    let r4 = w4 + sp + r5;
    let r3 = "name=capture"@ + sp + r4;
    let r2 = "pipewiresrc"@ + sp + r3;
    let r1 = "name=rtp"@ + sp + r2;
    text::law_white_space_parts_fields("rtpbin"@, ' ', r1);
    text::law_white_space_parts_fields("name=rtp"@, ' ', r2);
    text::law_white_space_parts_fields("pipewiresrc"@, ' ', r3);
    text::law_white_space_parts_fields("name=capture"@, ' ', r4);
    text::law_white_space_parts_fields(w4, ' ', r5);
    text::law_white_space_parts_fields(w5, ' ', later);
    assert(text::is_without_space(w4)) by {
        assert forall|i: int| 0 <= i < w4.len() implies !text::is_space(#[trigger] w4[i]) by {
            if i < "fd="@.len() {
                assert(w4[i] == "fd="@[i]);
            } else {
                assert(w4[i] == a[i - "fd="@.len()]);
            }
        }
    }
    assert(text::is_without_space(w5)) by {
        assert forall|i: int| 0 <= i < w5.len() implies !text::is_space(#[trigger] w5[i]) by {
            if i < "path="@.len() {
                assert(w5[i] == "path="@[i]);
            } else {
                assert(w5[i] == b[i - "path="@.len()]);
            }
        }
    }
    text::law_a_word_is_one_field("rtpbin"@);
    text::law_a_word_is_one_field("name=rtp"@);
    text::law_a_word_is_one_field("pipewiresrc"@);
    text::law_a_word_is_one_field("name=capture"@);
    text::law_a_word_is_one_field(w4);
    text::law_a_word_is_one_field(w5);
}

/// The words in front are words.
proof fn lemma_capture_literals()
    ensures
        text::is_without_space("rtpbin"@) && "rtpbin"@.len() > 0,
        text::is_without_space("name=rtp"@) && "name=rtp"@.len() > 0,
        text::is_without_space("pipewiresrc"@) && "pipewiresrc"@.len() > 0,
        text::is_without_space("name=capture"@) && "name=capture"@.len() > 0,
        text::is_without_space("fd="@) && "fd="@.len() > 0,
        text::is_without_space("path="@) && "path="@.len() > 0,
{
    reveal_strlit("rtpbin");
    reveal_strlit("name=rtp");
    reveal_strlit("pipewiresrc");
    reveal_strlit("name=capture");
    reveal_strlit("fd=");
    reveal_strlit("path=");
}

/// The text in front of a pipeline, in words.
proof fn lemma_capture_text(a: Seq<char>, b: Seq<char>, rest: Seq<char>)
    ensures
        ({
            let sp = seq![' '];
            let later = " keepalive-time=100 do-timestamp=true provide-clock=false"@.skip(1) + rest;
            "rtpbin name=rtp "@ + ("pipewiresrc name=capture fd="@ + a + " path="@ + b
                + " keepalive-time=100 do-timestamp=true provide-clock=false"@) + rest == "rtpbin"@
                + sp + ("name=rtp"@ + sp + ("pipewiresrc"@ + sp + ("name=capture"@ + sp + (("fd="@
                + a) + sp + (("path="@ + b) + sp + later)))))
        }),
{
    let sp = seq![' '];
    let tail = " keepalive-time=100 do-timestamp=true provide-clock=false"@;
    reveal_strlit("rtpbin name=rtp ");
    reveal_strlit("pipewiresrc name=capture fd=");
    reveal_strlit(" path=");
    reveal_strlit(" keepalive-time=100 do-timestamp=true provide-clock=false");
    reveal_strlit("rtpbin");
    reveal_strlit("name=rtp");
    reveal_strlit("pipewiresrc");
    reveal_strlit("name=capture");
    reveal_strlit("fd=");
    reveal_strlit("path=");
    assert("rtpbin name=rtp "@ =~= "rtpbin"@ + sp + "name=rtp"@ + sp);
    assert("pipewiresrc name=capture fd="@ =~= "pipewiresrc"@ + sp + "name=capture"@ + sp + "fd="@);
    assert(" path="@ =~= sp + "path="@);
    assert(tail =~= sp + tail.skip(1));
    lemma_capture_order(
        "rtpbin"@,
        "name=rtp"@,
        "pipewiresrc"@,
        "name=capture"@,
        "fd="@,
        a,
        "path="@,
        b,
        tail.skip(1),
        rest,
    );
}

/// Words and their text, one behind the other.
proof fn lemma_capture_order(
    w0: Seq<char>,
    w1: Seq<char>,
    w2: Seq<char>,
    w3: Seq<char>,
    k4: Seq<char>,
    a: Seq<char>,
    k5: Seq<char>,
    b: Seq<char>,
    tail: Seq<char>,
    rest: Seq<char>,
)
    ensures
        ({
            let sp = seq![' '];
            (w0 + sp + w1 + sp) + ((w2 + sp + w3 + sp + k4) + a + (sp + k5) + b + (sp + tail)) + rest
                == w0 + sp + (w1 + sp + (w2 + sp + (w3 + sp + ((k4 + a) + sp + ((k5 + b) + sp + (tail
                + rest))))))
        }),
{
    let sp = seq![' '];
    assert((w0 + sp + w1 + sp) + ((w2 + sp + w3 + sp + k4) + a + (sp + k5) + b + (sp + tail)) + rest
        =~= w0 + sp + (w1 + sp + (w2 + sp + (w3 + sp + ((k4 + a) + sp + ((k5 + b) + sp + (tail
        + rest)))))));
}

/// The characters of a number are no white space.
proof fn lemma_number_word(n: int)
    ensures
        text::is_without_space(signed_decimal(n)),
        n >= 0 ==> text::is_without_space(number::decimal(n)),
{
    reveal_strlit("-");
    let m = if n < 0 {
        -n
    } else {
        n
    };
    number::lemma_decimal(m);
    let s = number::decimal(m);
    assert forall|i: int| 0 <= i < s.len() implies !text::is_space(#[trigger] s[i]) by {
        assert(number::digit_value(s[i]) < 10);
    }
    let t = signed_decimal(n);
    assert forall|i: int| 0 <= i < t.len() implies !text::is_space(#[trigger] t[i]) by {
        if n < 0 && i > 0 {
            assert(t[i] == s[i - 1]);
        }
    }
}

/// The pipeline starts with its source.
proof fn lemma_pipeline_start(
    settings: Settings,
    source: Source<'_>,
    target: (Seq<char>, u16),
    rtcp: Option<(Seq<char>, u16)>,
    hardware: bool,
    fdk: bool,
)
    ensures
        ({
            let all = pipeline(settings, source, target, rtcp, hardware, fdk);
            let start = "rtpbin name=rtp "@ + video_source(source);
            start.len() <= all.len() && all.take(start.len() as int) == start
        }),
{
    let all = pipeline(settings, source, target, rtcp, hardware, fdk);
    let start = "rtpbin name=rtp "@ + video_source(source);
    assert(all.take(start.len() as int) =~= start);
}

/// The stream is sent to the port of the target, from port 50000, as RTP of type 33 in packets
/// below 1400 bytes, from a multiplexer that takes the pictures as stream 4113.
pub proof fn law_the_stream_goes_to_the_target(
    settings: Settings,
    source: Source<'_>,
    target: (Seq<char>, u16),
    rtcp: Option<(Seq<char>, u16)>,
    hardware: bool,
    fdk: bool,
)
    ensures
        ({
            let all = pipeline(settings, source, target, rtcp, hardware, fdk);
            &&& text::contains(
                all,
                "udpsink name=network host="@ + target.0 + " port="@ + number::decimal(
                    target.1 as int,
                ) + " bind-port=50000 "@,
            )
            &&& text::contains(all, " ! mux.sink_4113 mpegtsmux name=mux "@)
            &&& text::contains(all, " ! rtpmp2tpay name=pay pt=33 mtu=1400 "@)
            &&& text::contains(all, " ! rtp.send_rtp_sink_0 rtp.send_rtp_src_0 ! udpsink "@)
        }),
{
    let mux = " ! queue max-size-time=500000000 ! mux.sink_4113 mpegtsmux name=mux alignment=0 ! queue max-size-buffers=1 ! rtpmp2tpay name=pay pt=33 mtu=1400 ssrc=1 max-ptime=1000000 perfect-rtptime=false timestamp-offset=0 seqnum-offset=0 ! rtp.send_rtp_sink_0 rtp.send_rtp_src_0 ! udpsink name=network host="@;
    let net = " bind-port=50000 sync=true async=false processing-deadline=0 "@;
    reveal_strlit(" ! queue max-size-time=500000000 ! mux.sink_4113 mpegtsmux name=mux alignment=0 ! queue max-size-buffers=1 ! rtpmp2tpay name=pay pt=33 mtu=1400 ssrc=1 max-ptime=1000000 perfect-rtptime=false timestamp-offset=0 seqnum-offset=0 ! rtp.send_rtp_sink_0 rtp.send_rtp_src_0 ! udpsink name=network host=");
    reveal_strlit(" bind-port=50000 sync=true async=false processing-deadline=0 ");
    reveal_strlit("udpsink name=network host=");
    reveal_strlit(" bind-port=50000 ");
    let port = number::decimal(target.1 as int);
    let p = "udpsink name=network host="@ + target.0 + " port="@ + port + " bind-port=50000 "@;
    let front = mux.take(269);
    let back = net.skip(17);
    assert(mux =~= front + "udpsink name=network host="@);
    assert(net =~= " bind-port=50000 "@ + back);
    let whole = mux + target.0 + " port="@ + port + net;
    lemma_between(front, "udpsink name=network host="@, target.0, " port="@, port, " bind-port=50000 "@, back);
    text::lemma_kept(front, p, p);
    text::lemma_itself(p);
    text::lemma_kept(front + p, back, p);
    lemma_stages(settings, source, target, rtcp, hardware, fdk, p);
    lemma_network_words(settings, source, target, rtcp, hardware, fdk);
}

/// The words of the multiplexer and the packetizer.
proof fn lemma_network_words(
    settings: Settings,
    source: Source<'_>,
    target: (Seq<char>, u16),
    rtcp: Option<(Seq<char>, u16)>,
    hardware: bool,
    fdk: bool,
)
    ensures
        ({
            let all = pipeline(settings, source, target, rtcp, hardware, fdk);
            &&& text::contains(all, " ! mux.sink_4113 mpegtsmux name=mux "@)
            &&& text::contains(all, " ! rtpmp2tpay name=pay pt=33 mtu=1400 "@)
            &&& text::contains(all, " ! rtp.send_rtp_sink_0 rtp.send_rtp_src_0 ! udpsink "@)
        }),
{
    let mux = " ! queue max-size-time=500000000 ! mux.sink_4113 mpegtsmux name=mux alignment=0 ! queue max-size-buffers=1 ! rtpmp2tpay name=pay pt=33 mtu=1400 ssrc=1 max-ptime=1000000 perfect-rtptime=false timestamp-offset=0 seqnum-offset=0 ! rtp.send_rtp_sink_0 rtp.send_rtp_src_0 ! udpsink name=network host="@;
    reveal_strlit(" ! queue max-size-time=500000000 ! mux.sink_4113 mpegtsmux name=mux alignment=0 ! queue max-size-buffers=1 ! rtpmp2tpay name=pay pt=33 mtu=1400 ssrc=1 max-ptime=1000000 perfect-rtptime=false timestamp-offset=0 seqnum-offset=0 ! rtp.send_rtp_sink_0 rtp.send_rtp_src_0 ! udpsink name=network host=");
    reveal_strlit(" ! mux.sink_4113 mpegtsmux name=mux ");
    assert(mux.subrange(32, 32int + " ! mux.sink_4113 mpegtsmux name=mux "@.len()) =~= " ! mux.sink_4113 mpegtsmux name=mux "@);
    text::lemma_part(mux, 32, " ! mux.sink_4113 mpegtsmux name=mux "@);
    lemma_stages(settings, source, target, rtcp, hardware, fdk, " ! mux.sink_4113 mpegtsmux name=mux "@);
    reveal_strlit(" ! rtpmp2tpay name=pay pt=33 mtu=1400 ");
    assert(mux.subrange(106, 106int + " ! rtpmp2tpay name=pay pt=33 mtu=1400 "@.len()) =~= " ! rtpmp2tpay name=pay pt=33 mtu=1400 "@);
    text::lemma_part(mux, 106, " ! rtpmp2tpay name=pay pt=33 mtu=1400 "@);
    lemma_stages(settings, source, target, rtcp, hardware, fdk, " ! rtpmp2tpay name=pay pt=33 mtu=1400 "@);
    reveal_strlit(" ! rtp.send_rtp_sink_0 rtp.send_rtp_src_0 ! udpsink ");
    assert(mux.subrange(225, 225int + " ! rtp.send_rtp_sink_0 rtp.send_rtp_src_0 ! udpsink "@.len()) =~= " ! rtp.send_rtp_sink_0 rtp.send_rtp_src_0 ! udpsink "@);
    text::lemma_part(mux, 225, " ! rtp.send_rtp_sink_0 rtp.send_rtp_src_0 ! udpsink "@);
    lemma_stages(settings, source, target, rtcp, hardware, fdk, " ! rtp.send_rtp_sink_0 rtp.send_rtp_src_0 ! udpsink "@);
}

/// A part that reaches over several.
proof fn lemma_between(
    front: Seq<char>,
    a: Seq<char>,
    b: Seq<char>,
    c: Seq<char>,
    d: Seq<char>,
    e: Seq<char>,
    back: Seq<char>,
)
    ensures
        (front + a) + b + c + d + (e + back) == front + (a + b + c + d + e) + back,
{
    assert((front + a) + b + c + d + (e + back) =~= front + (a + b + c + d + e) + back);
}

/// The pictures have the width, the height and the rate that are asked for, with borders, and
/// square pixels; the hardware takes them as NV12, and the software as I420.
pub proof fn law_pictures_are_as_asked(
    settings: Settings,
    source: Source<'_>,
    target: (Seq<char>, u16),
    rtcp: Option<(Seq<char>, u16)>,
    hardware: bool,
    fdk: bool,
)
    ensures
        ({
            let all = pipeline(settings, source, target, rtcp, hardware, fdk);
            &&& text::contains(
                all,
                ",width="@ + number::decimal(settings.width as int) + ",height="@ + number::decimal(
                    settings.height as int,
                ) + ",framerate="@ + number::decimal(settings.fps as int) + "/1,"@,
            )
            &&& text::contains(all, " ! videoscale name=fit add-borders=true "@)
            &&& hardware && settings.profile == Profile::Hevc ==> text::contains(
                all,
                " ! video/x-raw,format=NV12,colorimetry=bt709"@,
            )
            &&& hardware ==> text::contains(all, " ! video/x-raw,format=NV12"@)
            &&& !hardware ==> text::contains(all, " ! video/x-raw,format=I420"@)
        }),
{
    let format = if hardware {
        "NV12"@
    } else {
        "I420"@
    };
    lemma_fitted(settings, format);
    lemma_formats();
    let size = ",width="@ + number::decimal(settings.width as int) + ",height="@ + number::decimal(
        settings.height as int,
    ) + ",framerate="@ + number::decimal(settings.fps as int) + "/1,"@;
    let raw = " ! video/x-raw,format="@;
    lemma_stages(settings, source, target, rtcp, hardware, fdk, size);
    lemma_stages(settings, source, target, rtcp, hardware, fdk, " ! videoscale name=fit add-borders=true "@);
    lemma_stages(settings, source, target, rtcp, hardware, fdk, raw + format);
    lemma_stages(settings, source, target, rtcp, hardware, fdk, raw + format + ",colorimetry=bt709"@);
}

/// The texts of the formats.
proof fn lemma_formats()
    ensures
        " ! video/x-raw,format="@ + "NV12"@ == " ! video/x-raw,format=NV12"@,
        " ! video/x-raw,format="@ + "I420"@ == " ! video/x-raw,format=I420"@,
        " ! video/x-raw,format="@ + "NV12"@ + ",colorimetry=bt709"@
            == " ! video/x-raw,format=NV12,colorimetry=bt709"@,
{
    reveal_strlit("NV12");
    reveal_strlit("I420");
    reveal_strlit(",colorimetry=bt709");
    reveal_strlit(" ! video/x-raw,format=");
    reveal_strlit(" ! video/x-raw,format=NV12,colorimetry=bt709");
    reveal_strlit(" ! video/x-raw,format=NV12");
    reveal_strlit(" ! video/x-raw,format=I420");
    assert(" ! video/x-raw,format="@ + "NV12"@ =~= " ! video/x-raw,format=NV12"@);
    assert(" ! video/x-raw,format="@ + "I420"@ =~= " ! video/x-raw,format=I420"@);
    assert(" ! video/x-raw,format="@ + "NV12"@ + ",colorimetry=bt709"@
        =~= " ! video/x-raw,format=NV12,colorimetry=bt709"@);
}

/// The stage of the scaling.
proof fn lemma_fitted(settings: Settings, format: Seq<char>)
    ensures
        ({
            let stage = fitted(settings, format);
            &&& text::contains(
                stage,
                ",width="@ + number::decimal(settings.width as int) + ",height="@ + number::decimal(
                    settings.height as int,
                ) + ",framerate="@ + number::decimal(settings.fps as int) + "/1,"@,
            )
            &&& text::contains(stage, " ! videoscale name=fit add-borders=true "@)
            &&& text::contains(stage, " ! video/x-raw,format="@ + format)
            &&& settings.profile == Profile::Hevc && format == "NV12"@ ==> text::contains(
                stage,
                " ! video/x-raw,format="@ + format + ",colorimetry=bt709"@,
            )
        }),
{
    let fit = "video/x-raw,pixel-aspect-ratio=1/1 ! videorate drop-only=true ! videoscale name=fit add-borders=true n-threads=2 ! video/x-raw,width="@;
    let form = "/1,pixel-aspect-ratio=1/1 ! videoconvert n-threads=2 ! video/x-raw,format="@;
    let colors = if settings.profile == Profile::Hevc && format == "NV12"@ {
        ",colorimetry=bt709"@
    } else {
        Seq::empty()
    };
    let w = number::decimal(settings.width as int);
    let h = number::decimal(settings.height as int);
    let f = number::decimal(settings.fps as int);
    let stage = fitted(settings, format);
    lemma_fit_literals();
    assert(stage == fit + w + ",height="@ + h + ",framerate="@ + f + form + format + colors);
    lemma_fitted_size(fit.take(126), w, h, f, form.skip(3), format, colors);
    lemma_fitted_format(fit + w + ",height="@ + h + ",framerate="@ + f, form.take(52), format, colors);
    let borders = " ! videoscale name=fit add-borders=true "@;
    text::lemma_kept(fit, w, borders);
    text::lemma_kept(fit + w, ",height="@, borders);
    text::lemma_kept(fit + w + ",height="@, h, borders);
    text::lemma_kept(fit + w + ",height="@ + h, ",framerate="@, borders);
    text::lemma_kept(fit + w + ",height="@ + h + ",framerate="@, f, borders);
    text::lemma_kept(fit + w + ",height="@ + h + ",framerate="@ + f, form, borders);
    text::lemma_kept(fit + w + ",height="@ + h + ",framerate="@ + f + form, format, borders);
    text::lemma_kept(fit + w + ",height="@ + h + ",framerate="@ + f + form + format, colors, borders);
}

/// The size in the stage.
proof fn lemma_fitted_size(
    front: Seq<char>,
    w: Seq<char>,
    h: Seq<char>,
    f: Seq<char>,
    form: Seq<char>,
    format: Seq<char>,
    colors: Seq<char>,
)
    ensures
        text::contains(
            (front + ",width="@) + w + ",height="@ + h + ",framerate="@ + f + ("/1,"@ + form) + format
                + colors,
            ",width="@ + w + ",height="@ + h + ",framerate="@ + f + "/1,"@,
        ),
{
    let size = ",width="@ + w + ",height="@ + h + ",framerate="@ + f + "/1,"@;
    lemma_size(front, ",width="@, w, ",height="@, h, ",framerate="@, f, "/1,"@, form, format, colors);
    text::lemma_itself(size);
    text::lemma_kept(front, size, size);
    text::lemma_kept(front + size, form + format + colors, size);
}

/// The format in the stage.
proof fn lemma_fitted_format(front: Seq<char>, form: Seq<char>, format: Seq<char>, colors: Seq<char>)
    ensures
        ({
            let raw = " ! video/x-raw,format="@;
            let stage = front + (form + raw) + format + colors;
            text::contains(stage, raw + format) && text::contains(stage, raw + format + colors)
        }),
{
    let raw = " ! video/x-raw,format="@;
    let named = raw + format + colors;
    assert(front + (form + raw) + format + colors =~= (front + form) + named);
    text::lemma_itself(named);
    text::lemma_kept(front + form, named, named);
    text::lemma_itself(raw + format);
    text::lemma_kept(raw + format, colors, raw + format);
    text::lemma_kept(front + form, named, raw + format);
}

/// The texts of the scaling.
proof fn lemma_fit_literals()
    ensures
        ({
            let fit = "video/x-raw,pixel-aspect-ratio=1/1 ! videorate drop-only=true ! videoscale name=fit add-borders=true n-threads=2 ! video/x-raw,width="@;
            let form = "/1,pixel-aspect-ratio=1/1 ! videoconvert n-threads=2 ! video/x-raw,format="@;
            &&& fit == fit.take(126) + ",width="@
            &&& form == "/1,"@ + form.skip(3)
            &&& form == form.take(52) + " ! video/x-raw,format="@
            &&& text::contains(fit, " ! videoscale name=fit add-borders=true "@)
        }),
{
    let fit = "video/x-raw,pixel-aspect-ratio=1/1 ! videorate drop-only=true ! videoscale name=fit add-borders=true n-threads=2 ! video/x-raw,width="@;
    let form = "/1,pixel-aspect-ratio=1/1 ! videoconvert n-threads=2 ! video/x-raw,format="@;
    reveal_strlit("video/x-raw,pixel-aspect-ratio=1/1 ! videorate drop-only=true ! videoscale name=fit add-borders=true n-threads=2 ! video/x-raw,width=");
    reveal_strlit("/1,pixel-aspect-ratio=1/1 ! videoconvert n-threads=2 ! video/x-raw,format=");
    reveal_strlit(",width=");
    reveal_strlit("/1,");
    reveal_strlit(" ! video/x-raw,format=");
    reveal_strlit(" ! videoscale name=fit add-borders=true ");
    assert(fit =~= fit.take(126) + ",width="@);
    assert(form =~= "/1,"@ + form.skip(3));
    assert(form =~= form.take(52) + " ! video/x-raw,format="@);
    assert(fit.subrange(61, 61int + " ! videoscale name=fit add-borders=true "@.len()) =~= " ! videoscale name=fit add-borders=true "@);
    text::lemma_part(fit, 61, " ! videoscale name=fit add-borders=true "@);
}

/// The size among its neighbours.
proof fn lemma_size(
    front: Seq<char>,
    a: Seq<char>,
    w: Seq<char>,
    b: Seq<char>,
    h: Seq<char>,
    c: Seq<char>,
    f: Seq<char>,
    d: Seq<char>,
    form: Seq<char>,
    format: Seq<char>,
    colors: Seq<char>,
)
    ensures
        (front + a) + w + b + h + c + f + (d + form) + format + colors == front + (a + w + b + h + c + f
            + d) + (form + format + colors),
{
    assert((front + a) + w + b + h + c + f + (d + form) + format + colors =~= front + (a + w + b + h + c
        + f + d) + (form + format + colors));
}

/// The encoder is the one of the hardware for the profile, or the software encoder, at a rate of
/// 4096 without frames that wait for later ones, with the context coding of RHP2 alone. Its key
/// frames come every second, or, where the receiver can ask for them, as rarely as the encoder
/// can: every 1024 frames, or 2147483647.
pub proof fn law_the_encoder_suits_the_receiver(
    settings: Settings,
    source: Source<'_>,
    target: (Seq<char>, u16),
    rtcp: Option<(Seq<char>, u16)>,
    hardware: bool,
    fdk: bool,
)
    ensures
        ({
            let all = pipeline(settings, source, target, rtcp, hardware, fdk);
            let interval = number::decimal(
                if !settings.idr_request_capability {
                    settings.fps as int
                } else if hardware {
                    1024
                } else {
                    2_147_483_647
                },
            );
            &&& hardware && settings.profile == Profile::Hevc ==> text::contains(
                all,
                "vah265enc name=encoder rate-control=vcm"@,
            )
            &&& hardware && settings.profile != Profile::Hevc ==> text::contains(
                all,
                "vah264enc name=encoder rate-control=cbr"@,
            )
            &&& hardware ==> text::contains(all, " bitrate=4096 cpb-size=204 b-frames=0 "@)
                && text::contains(all, " aud=true key-int-max="@ + interval + " num-slices=1 "@)
            &&& hardware && settings.profile == Profile::Baseline ==> text::contains(
                all,
                " qos=true cabac=false dct8x8=false"@,
            )
            &&& hardware && settings.profile == Profile::Rhp2 ==> text::contains(
                all,
                " qos=true cabac=true dct8x8=false"@,
            )
            &&& !hardware ==> text::contains(all, "x264enc name=encoder tune=zerolatency "@)
                && text::contains(all, " bitrate=4096 vbv-buf-capacity=50 bframes=0 "@)
            &&& !hardware && settings.profile == Profile::Rhp2 ==> text::contains(
                all,
                " ref=1 key-int-max="@ + interval + " cabac=true dct8x8=false"@,
            )
            &&& !hardware && settings.profile != Profile::Rhp2 ==> text::contains(
                all,
                " ref=1 key-int-max="@ + interval + " cabac=false dct8x8=false"@,
            )
        }),
{
    let interval = key_interval(settings.idr_request_capability, hardware, settings.fps);
    if hardware {
        lemma_hardware_stage(settings.profile, interval);
        lemma_stages(settings, source, target, rtcp, hardware, fdk, "vah265enc name=encoder rate-control=vcm"@);
        lemma_stages(settings, source, target, rtcp, hardware, fdk, "vah264enc name=encoder rate-control=cbr"@);
        lemma_stages(settings, source, target, rtcp, hardware, fdk, " bitrate=4096 cpb-size=204 b-frames=0 "@);
        lemma_stages(settings, source, target, rtcp, hardware, fdk, " aud=true key-int-max="@ + number::decimal(interval) + " num-slices=1 "@);
        lemma_stages(settings, source, target, rtcp, hardware, fdk, " qos=true cabac=false dct8x8=false"@);
        lemma_stages(settings, source, target, rtcp, hardware, fdk, " qos=true cabac=true dct8x8=false"@);
    } else {
        lemma_software_stage(settings.profile, interval);
        lemma_stages(settings, source, target, rtcp, hardware, fdk, "x264enc name=encoder tune=zerolatency "@);
        lemma_stages(settings, source, target, rtcp, hardware, fdk, " bitrate=4096 vbv-buf-capacity=50 bframes=0 "@);
        lemma_stages(settings, source, target, rtcp, hardware, fdk, " ref=1 key-int-max="@ + number::decimal(interval) + " cabac=true dct8x8=false"@);
        lemma_stages(settings, source, target, rtcp, hardware, fdk, " ref=1 key-int-max="@ + number::decimal(interval) + " cabac=false dct8x8=false"@);
    }
}

/// The stage of the hardware encoder.
proof fn lemma_hardware_stage(profile: Profile, interval: int)
    ensures
        ({
            let stage = encoder_stage(profile, true, interval);
            &&& profile == Profile::Hevc ==> text::contains(
                stage,
                "vah265enc name=encoder rate-control=vcm"@,
            )
            &&& profile != Profile::Hevc ==> text::contains(
                stage,
                "vah264enc name=encoder rate-control=cbr"@,
            )
            &&& text::contains(stage, " bitrate=4096 cpb-size=204 b-frames=0 "@)
            &&& text::contains(
                stage,
                " aud=true key-int-max="@ + number::decimal(interval) + " num-slices=1 "@,
            )
            &&& profile == Profile::Baseline ==> text::contains(
                stage,
                " qos=true cabac=false dct8x8=false"@,
            )
            &&& profile == Profile::Rhp2 ==> text::contains(
                stage,
                " qos=true cabac=true dct8x8=false"@,
            )
        }),
{
    let name = hardware_encoder(profile) + " name=encoder rate-control="@ + (if profile == Profile::Hevc {
        "vcm"@
    } else {
        "cbr"@
    });
    let rates = " bitrate=4096 cpb-size=204 b-frames=0 b-pyramid=false ref-frames=1 target-usage=7 aud=true key-int-max="@;
    let n = number::decimal(interval);
    let rest = " num-slices=1 qos=true "@;
    let options = if profile == Profile::Hevc {
        Seq::empty()
    } else {
        "cabac="@ + word(profile == Profile::Rhp2) + " dct8x8=false"@
    };
    lemma_hardware_literals();
    lemma_options(profile == Profile::Rhp2);
    let stage = encoder_stage(profile, true, interval);
    assert(stage == name + rates + n + rest + options);
    lemma_stage_parts(
        name,
        rates.take(81),
        " aud=true key-int-max="@,
        n,
        " num-slices=1"@,
        " qos=true "@,
        options,
        " bitrate=4096 cpb-size=204 b-frames=0 "@,
    );
    assert(" aud=true key-int-max="@ + n + (" num-slices=1"@ + seq![' ']) == " aud=true key-int-max="@
        + n + " num-slices=1 "@);
}

/// The texts of the hardware encoder.
proof fn lemma_hardware_literals()
    ensures
        ({
            let rates = " bitrate=4096 cpb-size=204 b-frames=0 b-pyramid=false ref-frames=1 target-usage=7 aud=true key-int-max="@;
            let rest = " num-slices=1 qos=true "@;
            &&& rates == rates.take(81) + " aud=true key-int-max="@
            &&& rest == " num-slices=1"@ + rest.skip(13)
            &&& rest.skip(13) == " qos=true "@
            &&& " num-slices=1 "@ == " num-slices=1"@ + seq![' ']
            &&& " qos=true "@[0] == ' ' && " qos=true "@.len() == 10
            &&& text::contains(rates, " bitrate=4096 cpb-size=204 b-frames=0 "@)
            &&& "vah265enc"@ + " name=encoder rate-control="@ + "vcm"@
                == "vah265enc name=encoder rate-control=vcm"@
            &&& "vah264enc"@ + " name=encoder rate-control="@ + "cbr"@
                == "vah264enc name=encoder rate-control=cbr"@
        }),
{
    let rates = " bitrate=4096 cpb-size=204 b-frames=0 b-pyramid=false ref-frames=1 target-usage=7 aud=true key-int-max="@;
    let rest = " num-slices=1 qos=true "@;
    reveal_strlit(" bitrate=4096 cpb-size=204 b-frames=0 b-pyramid=false ref-frames=1 target-usage=7 aud=true key-int-max=");
    reveal_strlit(" num-slices=1 qos=true ");
    reveal_strlit(" aud=true key-int-max=");
    reveal_strlit(" num-slices=1");
    reveal_strlit(" num-slices=1 ");
    reveal_strlit(" qos=true ");
    reveal_strlit(" bitrate=4096 cpb-size=204 b-frames=0 ");
    reveal_strlit("vah265enc");
    reveal_strlit("vah264enc");
    reveal_strlit(" name=encoder rate-control=");
    reveal_strlit("vcm");
    reveal_strlit("cbr");
    reveal_strlit("vah265enc name=encoder rate-control=vcm");
    reveal_strlit("vah264enc name=encoder rate-control=cbr");
    assert(rates =~= rates.take(81) + " aud=true key-int-max="@);
    assert(rest =~= " num-slices=1"@ + rest.skip(13));
    assert(rest.skip(13) =~= " qos=true "@);
    assert(" num-slices=1 "@ =~= " num-slices=1"@ + seq![' ']);
    assert(rates.subrange(0, " bitrate=4096 cpb-size=204 b-frames=0 "@.len() as int)
        =~= " bitrate=4096 cpb-size=204 b-frames=0 "@);
    text::lemma_part(rates, 0, " bitrate=4096 cpb-size=204 b-frames=0 "@);
    assert("vah265enc"@ + " name=encoder rate-control="@ + "vcm"@
        =~= "vah265enc name=encoder rate-control=vcm"@);
    assert("vah264enc"@ + " name=encoder rate-control="@ + "cbr"@
        =~= "vah264enc name=encoder rate-control=cbr"@);
}

/// The options of H.264.
proof fn lemma_options(high: bool)
    ensures
        " qos=true "@ + ("cabac="@ + word(high) + " dct8x8=false"@) == if high {
            " qos=true cabac=true dct8x8=false"@
        } else {
            " qos=true cabac=false dct8x8=false"@
        },
        " cabac="@ + word(high) + " dct8x8=false"@ == if high {
            " cabac=true dct8x8=false"@
        } else {
            " cabac=false dct8x8=false"@
        },
{
    reveal_strlit(" qos=true ");
    reveal_strlit("cabac=");
    reveal_strlit(" cabac=");
    reveal_strlit("true");
    reveal_strlit("false");
    reveal_strlit(" dct8x8=false");
    reveal_strlit(" qos=true cabac=true dct8x8=false");
    reveal_strlit(" qos=true cabac=false dct8x8=false");
    reveal_strlit(" cabac=true dct8x8=false");
    reveal_strlit(" cabac=false dct8x8=false");
    assert(" qos=true "@ + ("cabac="@ + word(high) + " dct8x8=false"@) =~= if high {
        " qos=true cabac=true dct8x8=false"@
    } else {
        " qos=true cabac=false dct8x8=false"@
    });
    assert(" cabac="@ + word(high) + " dct8x8=false"@ =~= if high {
        " cabac=true dct8x8=false"@
    } else {
        " cabac=false dct8x8=false"@
    });
}

/// The parts of a stage, one behind the other, are in it.
proof fn lemma_stage_parts(
    name: Seq<char>,
    a: Seq<char>,
    b: Seq<char>,
    n: Seq<char>,
    c: Seq<char>,
    d: Seq<char>,
    options: Seq<char>,
    rate: Seq<char>,
)
    requires
        d.len() > 0 && d[0] == ' ',
        text::contains(a + b, rate),
    ensures
        ({
            let stage = name + (a + b) + n + (c + d) + options;
            &&& text::contains(stage, name)
            &&& text::contains(stage, rate)
            &&& text::contains(stage, b + n + (c + seq![' ']))
            &&& text::contains(stage, d + options)
        }),
{
    let none = Seq::<char>::empty();
    let tail = n + (c + d) + options;
    lemma_five_parts(name, a + b, n, c, d, options);
    assert(none + name =~= name);
    lemma_enclosed(none, name, a + b + tail);
    lemma_inside(name, a + b, tail, rate);
    lemma_key_in_order(name, a, b, n, c, d, options);
    lemma_enclosed(name + a, b + n + (c + seq![' ']), d.skip(1) + options);
    lemma_enclosed(name + (a + b) + n + c, d + options, none);
    assert(name + (a + b) + n + c + (d + options) + none =~= name + (a + b) + n + c + (d + options));
}

/// A text between others is in them.
proof fn lemma_enclosed(a: Seq<char>, p: Seq<char>, b: Seq<char>)
    ensures
        text::contains(a + p + b, p),
{
    text::lemma_itself(p);
    lemma_inside(a, p, b, p);
}

/// What is in a text is in it between others.
proof fn lemma_inside(a: Seq<char>, s: Seq<char>, b: Seq<char>, p: Seq<char>)
    requires
        text::contains(s, p),
    ensures
        text::contains(a + s + b, p),
{
    text::lemma_kept(a, s, p);
    text::lemma_kept(a + s, b, p);
}

/// The order of the parts of a stage, from the front and from the back.
proof fn lemma_five_parts(
    name: Seq<char>,
    rates: Seq<char>,
    n: Seq<char>,
    c: Seq<char>,
    d: Seq<char>,
    options: Seq<char>,
)
    ensures
        name + rates + n + (c + d) + options == name + (rates + (n + (c + d) + options)),
        name + rates + n + (c + d) + options == name + rates + (n + (c + d) + options),
        name + rates + n + (c + d) + options == name + rates + n + c + (d + options),
{
    let front = name + rates;
    assert(front + n + (c + d) + options =~= front + (n + (c + d) + options));
    assert(name + (rates + (n + (c + d) + options)) =~= front + (n + (c + d) + options));
    assert(front + n + (c + d) =~= front + n + c + d);
    assert(front + n + c + d + options =~= front + n + c + (d + options));
}

/// The parts of a stage around its key frames.
proof fn lemma_key_in_order(
    name: Seq<char>,
    a: Seq<char>,
    b: Seq<char>,
    n: Seq<char>,
    c: Seq<char>,
    d: Seq<char>,
    options: Seq<char>,
)
    requires
        d.len() > 0 && d[0] == ' ',
    ensures
        name + (a + b) + n + (c + d) + options == name + a + (b + n + (c + seq![' '])) + (d.skip(1)
            + options),
{
    assert(d =~= seq![' '] + d.skip(1));
    let rest = d.skip(1);
    assert(name + (a + b) + n =~= name + a + (b + n));
    assert(c + (seq![' '] + rest) =~= c + seq![' '] + rest);
    assert(name + a + (b + n) + (c + seq![' '] + rest) =~= name + a + (b + n + (c + seq![' ']))
        + rest);
    assert(name + a + (b + n + (c + seq![' '])) + rest + options =~= name + a + (b + n + (c + seq![
        ' ',
    ])) + (rest + options));
}

/// The stage of the software encoder.
proof fn lemma_software_stage(profile: Profile, interval: int)
    ensures
        ({
            let stage = encoder_stage(profile, false, interval);
            &&& text::contains(stage, "x264enc name=encoder tune=zerolatency "@)
            &&& text::contains(stage, " bitrate=4096 vbv-buf-capacity=50 bframes=0 "@)
            &&& profile == Profile::Rhp2 ==> text::contains(
                stage,
                " ref=1 key-int-max="@ + number::decimal(interval) + " cabac=true dct8x8=false"@,
            )
            &&& profile != Profile::Rhp2 ==> text::contains(
                stage,
                " ref=1 key-int-max="@ + number::decimal(interval) + " cabac=false dct8x8=false"@,
            )
        }),
{
    let front = "x264enc name=encoder tune=zerolatency speed-preset=veryfast bitrate=4096 vbv-buf-capacity=50 bframes=0 ref=1 key-int-max="@;
    let n = number::decimal(interval);
    let stage = encoder_stage(profile, false, interval);
    let options = " cabac="@ + word(profile == Profile::Rhp2) + " dct8x8=false"@;
    lemma_options(profile == Profile::Rhp2);
    assert(stage =~= front + (n + options));
    reveal_strlit("x264enc name=encoder tune=zerolatency speed-preset=veryfast bitrate=4096 vbv-buf-capacity=50 bframes=0 ref=1 key-int-max=");
    reveal_strlit("x264enc name=encoder tune=zerolatency ");
    reveal_strlit(" bitrate=4096 vbv-buf-capacity=50 bframes=0 ");
    reveal_strlit(" ref=1 key-int-max=");
    let first = "x264enc name=encoder tune=zerolatency "@;
    let second = " bitrate=4096 vbv-buf-capacity=50 bframes=0 "@;
    assert(front.subrange(0, first.len() as int) =~= first);
    text::lemma_part(front, 0, first);
    assert(front.subrange(59, 59int + second.len()) =~= second);
    text::lemma_part(front, 59, second);
    text::lemma_kept(front, n + options, first);
    text::lemma_kept(front, n + options, second);
    let before = front.take(102);
    let p = " ref=1 key-int-max="@ + n + options;
    assert(front =~= before + " ref=1 key-int-max="@);
    assert(stage =~= before + p);
    text::lemma_itself(p);
    text::lemma_kept(before, p, p);
}

/// The pictures leave the encoder in the form of their profile.
pub proof fn law_the_form_suits_the_profile(
    settings: Settings,
    source: Source<'_>,
    target: (Seq<char>, u16),
    rtcp: Option<(Seq<char>, u16)>,
    hardware: bool,
    fdk: bool,
)
    ensures
        ({
            let all = pipeline(settings, source, target, rtcp, hardware, fdk);
            &&& settings.profile == Profile::Hevc ==> text::contains(all, "h265parse config-interval=-1 ! video/x-h265,stream-format=byte-stream,alignment=au,profile=main,level=(string)4.1"@)
            &&& settings.profile == Profile::Rhp2 ==> text::contains(all, "h264parse config-interval=-1 ! video/x-h264,stream-format=byte-stream,alignment=au,profile=high"@)
            &&& settings.profile == Profile::Baseline ==> text::contains(all, "h264parse config-interval=-1 ! video/x-h264,stream-format=byte-stream,alignment=au,profile=constrained-baseline"@)
        }),
{
    text::lemma_itself(parser_stage(settings.profile));
    lemma_stages(settings, source, target, rtcp, hardware, fdk, parser_stage(settings.profile));
}

/// The control of the media goes to its own port where there is one.
pub proof fn law_control_goes_to_its_port(
    settings: Settings,
    source: Source<'_>,
    target: (Seq<char>, u16),
    rtcp: Option<(Seq<char>, u16)>,
    hardware: bool,
    fdk: bool,
)
    requires
        rtcp is Some,
    ensures
        text::contains(
            pipeline(settings, source, target, rtcp, hardware, fdk),
            "rtp.send_rtcp_src_0 ! udpsink name=rtcp_out host="@ + rtcp->Some_0.0 + " port="@
                + number::decimal(rtcp->Some_0.1 as int) + " close-socket=false "@,
        ),
{
    let (host, port) = rtcp->Some_0;
    let literal = " close-socket=false sync=false async=false udpsrc name=rtcp_in close-socket=false caps=application/x-rtcp ! rtp.recv_rtcp_sink_0"@;
    reveal_strlit(" close-socket=false sync=false async=false udpsrc name=rtcp_in close-socket=false caps=application/x-rtcp ! rtp.recv_rtcp_sink_0");
    reveal_strlit(" close-socket=false ");
    let front = "rtp.send_rtcp_src_0 ! udpsink name=rtcp_out host="@ + host + " port="@ + number::decimal(
        port as int,
    );
    let p = front + " close-socket=false "@;
    let back = literal.skip(20);
    assert(literal =~= " close-socket=false "@ + back);
    assert(control_chain(rtcp) =~= p + back);
    text::lemma_itself(p);
    text::lemma_kept(p, back, p);
    lemma_stages(settings, source, target, rtcp, hardware, fdk, p);
}

/// The sound of a desktop comes from the monitor of the sink, is coded by one of the two
/// encoders, and goes into the multiplexer as stream 4352.
pub proof fn law_sound_comes_from_the_monitor(
    settings: Settings,
    source: Source<'_>,
    target: (Seq<char>, u16),
    rtcp: Option<(Seq<char>, u16)>,
    hardware: bool,
    fdk: bool,
)
    ensures
        ({
            let all = pipeline(settings, source, target, rtcp, hardware, fdk);
            &&& source matches Source::Desktop { audio_sink: Some(sink), .. } ==> text::contains(
                all,
                "pulsesrc name=audio_capture device="@ + sink@ + ".monitor "@,
            )
            &&& source matches Source::Test { audio: true } ==> text::contains(
                all,
                "audiotestsrc name=audio_capture is-live=true samplesperbuffer=1024"@,
            )
            &&& (source matches Source::Desktop { audio_sink: Some(_), .. }) || (source matches Source::Test { audio: true }) ==> {
                &&& text::contains(all, " ! audio/x-raw,rate=48000,channels=2 ! "@)
                &&& fdk ==> text::contains(all, " ! fdkaacenc name=audio_encoder "@)
                &&& !fdk ==> text::contains(all, " ! avenc_aac name=audio_encoder "@)
                &&& text::contains(all, " ! mux.sink_4352"@)
            }
            &&& (source matches Source::Desktop { audio_sink: None, .. }) || (source matches Source::Test { audio: false }) ==> text::ends_with(
                all,
                control_chain(rtcp) + " "@,
            )
        }),
{
    let none = Seq::<char>::empty();
    let convert = " ! audioresample ! audioconvert ! audio/x-raw,rate=48000,channels=2 ! "@;
    let coder = if fdk {
        "fdkaacenc"@
    } else {
        "avenc_aac"@
    };
    let ending = " name=audio_encoder ! aacparse ! audio/mpeg,mpegversion=4,stream-format=adts ! queue max-size-time=500000000 ! mux.sink_4352"@;
    lemma_sound_literals(fdk);
    match audio_source(source) {
        None => {
            let all = pipeline(settings, source, target, rtcp, hardware, fdk);
            let p = control_chain(rtcp) + " "@;
            assert(audio_chain(source, fdk) =~= none);
            assert(all.skip(all.len() - p.len()) =~= p);
        },
        Some(t) => {
            let chain = audio_chain(source, fdk);
            let tail = convert + coder + ending;
            assert(chain =~= t + tail);
            let p = " ! audio/x-raw,rate=48000,channels=2 ! "@;
            text::lemma_kept(t, tail, p);
            lemma_stages(settings, source, target, rtcp, hardware, fdk, p);
            text::lemma_kept(t, tail, " ! mux.sink_4352"@);
            lemma_stages(settings, source, target, rtcp, hardware, fdk, " ! mux.sink_4352"@);
            text::lemma_kept(t, tail, " ! fdkaacenc name=audio_encoder "@);
            lemma_stages(settings, source, target, rtcp, hardware, fdk, " ! fdkaacenc name=audio_encoder "@);
            text::lemma_kept(t, tail, " ! avenc_aac name=audio_encoder "@);
            lemma_stages(settings, source, target, rtcp, hardware, fdk, " ! avenc_aac name=audio_encoder "@);
            match source {
                Source::Desktop { audio_sink: Some(sink), .. } => {
                    let literal = ".monitor provide-clock=false do-timestamp=true buffer-time=40000 latency-time=10000"@;
                    let q = "pulsesrc name=audio_capture device="@ + sink@ + ".monitor "@;
                    let back = literal.skip(9);
                    reveal_strlit(".monitor provide-clock=false do-timestamp=true buffer-time=40000 latency-time=10000");
                    reveal_strlit(".monitor ");
                    assert(literal =~= ".monitor "@ + back);
                    assert(t =~= q + back);
                    text::lemma_itself(q);
                    text::lemma_kept(q, back, q);
                    text::lemma_kept(t, tail, q);
                    lemma_stages(settings, source, target, rtcp, hardware, fdk, q);
                },
                _ => {
                    text::lemma_itself(t);
                    text::lemma_kept(t, tail, t);
                    lemma_stages(settings, source, target, rtcp, hardware, fdk, t);
                },
            }
        },
    }
}

/// The texts of the sound.
proof fn lemma_sound_literals(fdk: bool)
    ensures
        ({
            let tail = " ! audioresample ! audioconvert ! audio/x-raw,rate=48000,channels=2 ! "@ + (if fdk {
                "fdkaacenc"@
            } else {
                "avenc_aac"@
            })
                + " name=audio_encoder ! aacparse ! audio/mpeg,mpegversion=4,stream-format=adts ! queue max-size-time=500000000 ! mux.sink_4352"@;
            &&& text::contains(tail, " ! audio/x-raw,rate=48000,channels=2 ! "@)
            &&& text::contains(tail, " ! mux.sink_4352"@)
            &&& fdk ==> text::contains(tail, " ! fdkaacenc name=audio_encoder "@)
            &&& !fdk ==> text::contains(tail, " ! avenc_aac name=audio_encoder "@)
        }),
{
    let convert = " ! audioresample ! audioconvert ! audio/x-raw,rate=48000,channels=2 ! "@;
    let coder = if fdk {
        "fdkaacenc"@
    } else {
        "avenc_aac"@
    };
    let ending = " name=audio_encoder ! aacparse ! audio/mpeg,mpegversion=4,stream-format=adts ! queue max-size-time=500000000 ! mux.sink_4352"@;
    let tail = convert + coder + ending;
    reveal_strlit(" ! audioresample ! audioconvert ! audio/x-raw,rate=48000,channels=2 ! ");
    reveal_strlit(" name=audio_encoder ! aacparse ! audio/mpeg,mpegversion=4,stream-format=adts ! queue max-size-time=500000000 ! mux.sink_4352");
    reveal_strlit("fdkaacenc");
    reveal_strlit("avenc_aac");
    reveal_strlit(" ! audio/x-raw,rate=48000,channels=2 ! ");
    reveal_strlit(" ! mux.sink_4352");
    reveal_strlit(" ! fdkaacenc name=audio_encoder ");
    reveal_strlit(" ! avenc_aac name=audio_encoder ");
    let n = convert.len() as int;
    assert(tail.subrange(31, n) =~= " ! audio/x-raw,rate=48000,channels=2 ! "@);
    text::lemma_part(tail, 31, " ! audio/x-raw,rate=48000,channels=2 ! "@);
    let m = tail.len() - " ! mux.sink_4352"@.len();
    assert(tail.subrange(m, tail.len() as int) =~= " ! mux.sink_4352"@);
    text::lemma_part(tail, m, " ! mux.sink_4352"@);
    if fdk {
        assert(tail.subrange(n - 3, n - 3 + " ! fdkaacenc name=audio_encoder "@.len()) =~= " ! fdkaacenc name=audio_encoder "@);
        text::lemma_part(tail, n - 3, " ! fdkaacenc name=audio_encoder "@);
    } else {
        assert(tail.subrange(n - 3, n - 3 + " ! avenc_aac name=audio_encoder "@.len()) =~= " ! avenc_aac name=audio_encoder "@);
        text::lemma_part(tail, n - 3, " ! avenc_aac name=audio_encoder "@);
    }
}

} // verus!
