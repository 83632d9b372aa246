//! What a session asks and tells the receiver, and what it makes of the answers.
use crate::number;
use crate::rtsp;
use crate::session;
use crate::session::{Action, SessionModel};
use crate::text;
use crate::wfd;
use crate::wfd::{Config, Event, Pending, Profile, WfdError};
use vstd::prelude::*;

verus! {

// ---------------------------------------------------------------------------
// Questions
// ---------------------------------------------------------------------------

/// The receiver is asked for its ports and its codecs by their names, one on each line: for the
/// formats of the profile that is wanted and for whether it asks for key frames, or, by a probe,
/// for all formats.
pub proof fn law_the_receiver_is_asked_by_name(config: Config)
    ensures
        ({
            let names = text::lines(session::capability_query(config));
            &&& names.contains("wfd_client_rtp_ports"@)
            &&& names.contains("wfd_audio_codecs"@)
            &&& config.probe_codecs ==> names.contains("wfd2_audio_codecs"@) && names.contains(
                "wfd_video_formats"@,
            ) && names.contains("wfd2_video_formats"@) && names.contains("wfdx_video_formats"@)
                && names.len() == 6
            &&& !config.probe_codecs ==> names.contains("wfd_idr_request_capability"@)
            &&& !config.probe_codecs && config.profile == Profile::Baseline ==> names.contains(
                "wfd_video_formats"@,
            ) && names.len() == 4
            &&& !config.probe_codecs && config.profile != Profile::Baseline ==> names.contains(
                "wfd2_audio_codecs"@,
            ) && names.contains("wfd2_video_formats"@) && names.len() == 5
        }),
{
    if config.probe_codecs {
        lemma_names_probe();
    } else if config.profile == Profile::Baseline {
        lemma_names_base();
    } else {
        lemma_names_full();
    }
}

/// The names of a question.
proof fn lemma_names_probe()
    ensures
        text::lines("wfd_client_rtp_ports\r\nwfd_audio_codecs\r\nwfd2_audio_codecs\r\nwfd_video_formats\r\nwfd2_video_formats\r\nwfdx_video_formats\r\n"@).contains("wfd_client_rtp_ports"@),
        text::lines("wfd_client_rtp_ports\r\nwfd_audio_codecs\r\nwfd2_audio_codecs\r\nwfd_video_formats\r\nwfd2_video_formats\r\nwfdx_video_formats\r\n"@).contains("wfd_audio_codecs"@),
        text::lines("wfd_client_rtp_ports\r\nwfd_audio_codecs\r\nwfd2_audio_codecs\r\nwfd_video_formats\r\nwfd2_video_formats\r\nwfdx_video_formats\r\n"@).contains("wfd2_audio_codecs"@),
        text::lines("wfd_client_rtp_ports\r\nwfd_audio_codecs\r\nwfd2_audio_codecs\r\nwfd_video_formats\r\nwfd2_video_formats\r\nwfdx_video_formats\r\n"@).contains("wfd_video_formats"@),
        text::lines("wfd_client_rtp_ports\r\nwfd_audio_codecs\r\nwfd2_audio_codecs\r\nwfd_video_formats\r\nwfd2_video_formats\r\nwfdx_video_formats\r\n"@).contains("wfd2_video_formats"@),
        text::lines("wfd_client_rtp_ports\r\nwfd_audio_codecs\r\nwfd2_audio_codecs\r\nwfd_video_formats\r\nwfd2_video_formats\r\nwfdx_video_formats\r\n"@).contains("wfdx_video_formats"@),
        text::lines("wfd_client_rtp_ports\r\nwfd_audio_codecs\r\nwfd2_audio_codecs\r\nwfd_video_formats\r\nwfd2_video_formats\r\nwfdx_video_formats\r\n"@).len() == 6,
{
    reveal_strlit("wfd_client_rtp_ports\r\nwfd_audio_codecs\r\nwfd2_audio_codecs\r\nwfd_video_formats\r\nwfd2_video_formats\r\nwfdx_video_formats\r\n");
    let s0 = "wfd_client_rtp_ports\r\nwfd_audio_codecs\r\nwfd2_audio_codecs\r\nwfd_video_formats\r\nwfd2_video_formats\r\nwfdx_video_formats\r\n"@;
    let s1 = s0.skip(22);
    reveal_strlit("wfd_client_rtp_ports");
    assert(s0 =~= "wfd_client_rtp_ports"@ + seq!['\r', '\n'] + s1);
    text::law_line_ends_part_lines("wfd_client_rtp_ports"@, s1);
    let s2 = s1.skip(18);
    reveal_strlit("wfd_audio_codecs");
    assert(s1 =~= "wfd_audio_codecs"@ + seq!['\r', '\n'] + s2);
    text::law_line_ends_part_lines("wfd_audio_codecs"@, s2);
    let s3 = s2.skip(19);
    reveal_strlit("wfd2_audio_codecs");
    assert(s2 =~= "wfd2_audio_codecs"@ + seq!['\r', '\n'] + s3);
    text::law_line_ends_part_lines("wfd2_audio_codecs"@, s3);
    let s4 = s3.skip(19);
    reveal_strlit("wfd_video_formats");
    assert(s3 =~= "wfd_video_formats"@ + seq!['\r', '\n'] + s4);
    text::law_line_ends_part_lines("wfd_video_formats"@, s4);
    let s5 = s4.skip(20);
    reveal_strlit("wfd2_video_formats");
    assert(s4 =~= "wfd2_video_formats"@ + seq!['\r', '\n'] + s5);
    text::law_line_ends_part_lines("wfd2_video_formats"@, s5);
    let s6 = s5.skip(20);
    reveal_strlit("wfdx_video_formats");
    assert(s5 =~= "wfdx_video_formats"@ + seq!['\r', '\n'] + s6);
    text::law_line_ends_part_lines("wfdx_video_formats"@, s6);
    assert(s6 =~= Seq::<char>::empty());
    let all = text::lines(s0);
    assert(all[0] == "wfd_client_rtp_ports"@);
    assert(all[1] == "wfd_audio_codecs"@);
    assert(all[2] == "wfd2_audio_codecs"@);
    assert(all[3] == "wfd_video_formats"@);
    assert(all[4] == "wfd2_video_formats"@);
    assert(all[5] == "wfdx_video_formats"@);
}

/// The names of a question.
proof fn lemma_names_base()
    ensures
        text::lines("wfd_client_rtp_ports\r\nwfd_audio_codecs\r\nwfd_video_formats\r\nwfd_idr_request_capability\r\n"@).contains("wfd_client_rtp_ports"@),
        text::lines("wfd_client_rtp_ports\r\nwfd_audio_codecs\r\nwfd_video_formats\r\nwfd_idr_request_capability\r\n"@).contains("wfd_audio_codecs"@),
        text::lines("wfd_client_rtp_ports\r\nwfd_audio_codecs\r\nwfd_video_formats\r\nwfd_idr_request_capability\r\n"@).contains("wfd_video_formats"@),
        text::lines("wfd_client_rtp_ports\r\nwfd_audio_codecs\r\nwfd_video_formats\r\nwfd_idr_request_capability\r\n"@).contains("wfd_idr_request_capability"@),
        text::lines("wfd_client_rtp_ports\r\nwfd_audio_codecs\r\nwfd_video_formats\r\nwfd_idr_request_capability\r\n"@).len() == 4,
{
    reveal_strlit("wfd_client_rtp_ports\r\nwfd_audio_codecs\r\nwfd_video_formats\r\nwfd_idr_request_capability\r\n");
    let s0 = "wfd_client_rtp_ports\r\nwfd_audio_codecs\r\nwfd_video_formats\r\nwfd_idr_request_capability\r\n"@;
    let s1 = s0.skip(22);
    reveal_strlit("wfd_client_rtp_ports");
    assert(s0 =~= "wfd_client_rtp_ports"@ + seq!['\r', '\n'] + s1);
    text::law_line_ends_part_lines("wfd_client_rtp_ports"@, s1);
    let s2 = s1.skip(18);
    reveal_strlit("wfd_audio_codecs");
    assert(s1 =~= "wfd_audio_codecs"@ + seq!['\r', '\n'] + s2);
    text::law_line_ends_part_lines("wfd_audio_codecs"@, s2);
    let s3 = s2.skip(19);
    reveal_strlit("wfd_video_formats");
    assert(s2 =~= "wfd_video_formats"@ + seq!['\r', '\n'] + s3);
    text::law_line_ends_part_lines("wfd_video_formats"@, s3);
    let s4 = s3.skip(28);
    reveal_strlit("wfd_idr_request_capability");
    assert(s3 =~= "wfd_idr_request_capability"@ + seq!['\r', '\n'] + s4);
    text::law_line_ends_part_lines("wfd_idr_request_capability"@, s4);
    assert(s4 =~= Seq::<char>::empty());
    let all = text::lines(s0);
    assert(all[0] == "wfd_client_rtp_ports"@);
    assert(all[1] == "wfd_audio_codecs"@);
    assert(all[2] == "wfd_video_formats"@);
    assert(all[3] == "wfd_idr_request_capability"@);
}

/// The names of a question.
proof fn lemma_names_full()
    ensures
        text::lines("wfd_client_rtp_ports\r\nwfd_audio_codecs\r\nwfd2_audio_codecs\r\nwfd2_video_formats\r\nwfd_idr_request_capability\r\n"@).contains("wfd_client_rtp_ports"@),
        text::lines("wfd_client_rtp_ports\r\nwfd_audio_codecs\r\nwfd2_audio_codecs\r\nwfd2_video_formats\r\nwfd_idr_request_capability\r\n"@).contains("wfd_audio_codecs"@),
        text::lines("wfd_client_rtp_ports\r\nwfd_audio_codecs\r\nwfd2_audio_codecs\r\nwfd2_video_formats\r\nwfd_idr_request_capability\r\n"@).contains("wfd2_audio_codecs"@),
        text::lines("wfd_client_rtp_ports\r\nwfd_audio_codecs\r\nwfd2_audio_codecs\r\nwfd2_video_formats\r\nwfd_idr_request_capability\r\n"@).contains("wfd2_video_formats"@),
        text::lines("wfd_client_rtp_ports\r\nwfd_audio_codecs\r\nwfd2_audio_codecs\r\nwfd2_video_formats\r\nwfd_idr_request_capability\r\n"@).contains("wfd_idr_request_capability"@),
        text::lines("wfd_client_rtp_ports\r\nwfd_audio_codecs\r\nwfd2_audio_codecs\r\nwfd2_video_formats\r\nwfd_idr_request_capability\r\n"@).len() == 5,
{
    reveal_strlit("wfd_client_rtp_ports\r\nwfd_audio_codecs\r\nwfd2_audio_codecs\r\nwfd2_video_formats\r\nwfd_idr_request_capability\r\n");
    let s0 = "wfd_client_rtp_ports\r\nwfd_audio_codecs\r\nwfd2_audio_codecs\r\nwfd2_video_formats\r\nwfd_idr_request_capability\r\n"@;
    let s1 = s0.skip(22);
    reveal_strlit("wfd_client_rtp_ports");
    assert(s0 =~= "wfd_client_rtp_ports"@ + seq!['\r', '\n'] + s1);
    text::law_line_ends_part_lines("wfd_client_rtp_ports"@, s1);
    let s2 = s1.skip(18);
    reveal_strlit("wfd_audio_codecs");
    assert(s1 =~= "wfd_audio_codecs"@ + seq!['\r', '\n'] + s2);
    text::law_line_ends_part_lines("wfd_audio_codecs"@, s2);
    let s3 = s2.skip(19);
    reveal_strlit("wfd2_audio_codecs");
    assert(s2 =~= "wfd2_audio_codecs"@ + seq!['\r', '\n'] + s3);
    text::law_line_ends_part_lines("wfd2_audio_codecs"@, s3);
    let s4 = s3.skip(20);
    reveal_strlit("wfd2_video_formats");
    assert(s3 =~= "wfd2_video_formats"@ + seq!['\r', '\n'] + s4);
    text::law_line_ends_part_lines("wfd2_video_formats"@, s4);
    let s5 = s4.skip(28);
    reveal_strlit("wfd_idr_request_capability");
    assert(s4 =~= "wfd_idr_request_capability"@ + seq!['\r', '\n'] + s5);
    text::law_line_ends_part_lines("wfd_idr_request_capability"@, s5);
    assert(s5 =~= Seq::<char>::empty());
    let all = text::lines(s0);
    assert(all[0] == "wfd_client_rtp_ports"@);
    assert(all[1] == "wfd_audio_codecs"@);
    assert(all[2] == "wfd2_audio_codecs"@);
    assert(all[3] == "wfd2_video_formats"@);
    assert(all[4] == "wfd_idr_request_capability"@);
}

/// The capabilities are asked for as soon as both sides have exchanged their options, in
/// whatever order, and not before.
pub proof fn law_both_orders_of_options_lead_to_the_question(
    s: SessionModel,
    reply: rtsp::MessageModel,
    request: rtsp::MessageModel,
)
    requires
        !s.options_reply && !s.sink_options && !s.capabilities_sent,
        reply.cseq() is Ok && 0 <= reply.cseq()->Ok_0 <= 0xffff_ffff,
        reply.status() == Some(200int),
        s.pending.contains_key(reply.cseq()->Ok_0 as u32),
        s.pending[reply.cseq()->Ok_0 as u32] == Pending::Options,
        request.cseq() is Ok,
        request.status() is None,
        request.method() == "OPTIONS"@,
    ensures
        ({
            let a1 = session::handled(s, reply);
            let a2 = session::handled(a1.state, request);
            let b1 = session::handled(s, request);
            let b2 = session::handled(b1.state, reply);
            let question = Action::<Seq<char>>::Send(
                session::request_text(
                    "GET_PARAMETER"@,
                    "rtsp://localhost/wfd1.0"@,
                    s.next_cseq,
                    Seq::empty(),
                    session::capability_query(s.config),
                ),
            );
            let welcome = session::answer(
                200,
                request.cseq()->Ok_0,
                seq![("Public"@, session::public_methods())],
            );
            &&& a1.result == Ok::<(Seq<Action<Seq<char>>>, bool), WfdError<Seq<char>>>(
                (Seq::empty(), false),
            )
            &&& a2.result == Ok::<(Seq<Action<Seq<char>>>, bool), WfdError<Seq<char>>>(
                (seq![welcome, question], false),
            )
            &&& b1.result == Ok::<(Seq<Action<Seq<char>>>, bool), WfdError<Seq<char>>>(
                (seq![welcome], false),
            )
            &&& b2.result == Ok::<(Seq<Action<Seq<char>>>, bool), WfdError<Seq<char>>>(
                (seq![question], false),
            )
            &&& a2.state.capabilities_sent && b2.state.capabilities_sent
            &&& a2.state.pending[s.next_cseq as u32] == Pending::Capabilities
            &&& b2.state.pending[s.next_cseq as u32] == Pending::Capabilities
        }),
{
    let welcome = session::answer(
        200,
        request.cseq()->Ok_0,
        seq![("Public"@, session::public_methods())],
    );
    let none = Seq::<Action<Seq<char>>>::empty();
    let b1 = session::handled(s, request);
    assert(seq![welcome] + none =~= seq![welcome]);
    let a1 = session::handled(s, reply);
    let next = SessionModel { sink_options: true, ..a1.state };
    assert(session::query_actions(next).len() == 1);
    assert(seq![welcome] + session::query_actions(next) =~= seq![
        welcome,
        session::query_actions(next)[0],
    ]);
}

/// The methods that are offered are those that are answered.
pub proof fn law_offered_methods()
    ensures
        text::contains(session::public_methods(), "org.wfa.wfd1.0, "@),
        text::contains(session::public_methods(), ", OPTIONS, "@),
        text::contains(session::public_methods(), ", GET_PARAMETER, "@),
        text::contains(session::public_methods(), ", SET_PARAMETER, "@),
        text::contains(session::public_methods(), ", SETUP, "@),
        text::contains(session::public_methods(), ", PLAY, "@),
        text::contains(session::public_methods(), ", PAUSE, "@),
        text::contains(session::public_methods(), ", TEARDOWN"@),
{
    let s = session::public_methods();
    reveal_strlit("org.wfa.wfd1.0, OPTIONS, GET_PARAMETER, SET_PARAMETER, SETUP, PLAY, PAUSE, TEARDOWN");
    reveal_strlit("org.wfa.wfd1.0, ");
    assert(s.subrange(0, 16) =~= "org.wfa.wfd1.0, "@);
    text::lemma_part(s, 0, "org.wfa.wfd1.0, "@);
    reveal_strlit(", OPTIONS, ");
    assert(s.subrange(14, 25) =~= ", OPTIONS, "@);
    text::lemma_part(s, 14, ", OPTIONS, "@);
    reveal_strlit(", GET_PARAMETER, ");
    assert(s.subrange(23, 40) =~= ", GET_PARAMETER, "@);
    text::lemma_part(s, 23, ", GET_PARAMETER, "@);
    reveal_strlit(", SET_PARAMETER, ");
    assert(s.subrange(38, 55) =~= ", SET_PARAMETER, "@);
    text::lemma_part(s, 38, ", SET_PARAMETER, "@);
    reveal_strlit(", SETUP, ");
    assert(s.subrange(53, 62) =~= ", SETUP, "@);
    text::lemma_part(s, 53, ", SETUP, "@);
    reveal_strlit(", PLAY, ");
    assert(s.subrange(60, 68) =~= ", PLAY, "@);
    text::lemma_part(s, 60, ", PLAY, "@);
    reveal_strlit(", PAUSE, ");
    assert(s.subrange(66, 75) =~= ", PAUSE, "@);
    text::lemma_part(s, 66, ", PAUSE, "@);
    reveal_strlit(", TEARDOWN");
    assert(s.subrange(73, 83) =~= ", TEARDOWN"@);
    text::lemma_part(s, 73, ", TEARDOWN"@);
}

// ---------------------------------------------------------------------------
// The selection
// ---------------------------------------------------------------------------

/// The lines of a selection.
proof fn lemma_selection_lines(
    s: SessionModel,
    key: Seq<char>,
    value: Seq<char>,
    rtp: int,
    rtcp: int,
)
    ensures
        ({
            let end = seq!['\r', '\n'];
            let sp = seq![' '];
            let audio = if s.config.profile == Profile::Baseline {
                "wfd_audio_codecs"@
            } else {
                "wfd2_audio_codecs"@
            };
            let codec = if s.config.audio {
                "AAC 00000001 00"@
            } else {
                "none"@
            };
            let l1 = key + seq![':'] + sp + value + end;
            let l2 = audio + seq![':'] + sp + codec + end;
            let l3 = "wfd_presentation_URL"@ + seq![':'] + sp + (s.presentation + " none"@) + end;
            let l4 = "wfd_client_rtp_ports"@ + seq![':'] + sp + ("RTP/AVP/UDP;unicast"@ + sp
                + number::decimal(rtp) + sp + number::decimal(rtcp) + " mode=play"@) + end;
            session::selection(s, key, value, rtp, rtcp) == l1 + l2 + l3 + l4
        }),
{
    let end = seq!['\r', '\n'];
    let sp = seq![' '];
    let audio = if s.config.profile == Profile::Baseline {
        "wfd_audio_codecs"@
    } else {
        "wfd2_audio_codecs"@
    };
    let codec = if s.config.audio {
        "AAC 00000001 00"@
    } else {
        "none"@
    };
    lemma_selection_literals();
    lemma_selection_order(
        key,
        value,
        audio,
        codec,
        "wfd_presentation_URL"@,
        s.presentation,
        " none"@,
        "wfd_client_rtp_ports"@,
        "RTP/AVP/UDP;unicast"@,
        number::decimal(rtp),
        number::decimal(rtcp),
        " mode=play"@,
    );
}

/// The texts between the values of a selection.
proof fn lemma_selection_literals()
    ensures
        ": "@ == seq![':'] + seq![' '],
        " "@ == seq![' '],
        "\r\n"@ == seq!['\r', '\n'],
        "\r\nwfd_presentation_URL: "@ == seq!['\r', '\n'] + "wfd_presentation_URL"@ + seq![':']
            + seq![' '],
        " none\r\nwfd_client_rtp_ports: RTP/AVP/UDP;unicast "@ == " none"@ + seq!['\r', '\n']
            + "wfd_client_rtp_ports"@ + seq![':'] + seq![' '] + "RTP/AVP/UDP;unicast"@ + seq![' '],
        " mode=play\r\n"@ == " mode=play"@ + seq!['\r', '\n'],
{
    reveal_strlit(": ");
    reveal_strlit(" ");
    reveal_strlit("\r\n");
    reveal_strlit("\r\nwfd_presentation_URL: ");
    reveal_strlit("wfd_presentation_URL");
    reveal_strlit(" none\r\nwfd_client_rtp_ports: RTP/AVP/UDP;unicast ");
    reveal_strlit(" none");
    reveal_strlit("wfd_client_rtp_ports");
    reveal_strlit("RTP/AVP/UDP;unicast");
    reveal_strlit(" mode=play\r\n");
    reveal_strlit(" mode=play");
    assert(": "@ =~= seq![':'] + seq![' ']);
    assert(" "@ =~= seq![' ']);
    assert("\r\n"@ =~= seq!['\r', '\n']);
    assert("\r\nwfd_presentation_URL: "@ =~= seq!['\r', '\n'] + "wfd_presentation_URL"@ + seq![':']
        + seq![' ']);
    assert(" none\r\nwfd_client_rtp_ports: RTP/AVP/UDP;unicast "@ =~= " none"@ + seq!['\r', '\n']
        + "wfd_client_rtp_ports"@ + seq![':'] + seq![' '] + "RTP/AVP/UDP;unicast"@ + seq![' ']);
    assert(" mode=play\r\n"@ =~= " mode=play"@ + seq!['\r', '\n']);
}

/// The parts of a selection, one behind the other.
proof fn lemma_selection_order(
    key: Seq<char>,
    value: Seq<char>,
    audio: Seq<char>,
    codec: Seq<char>,
    url: Seq<char>,
    presentation: Seq<char>,
    none: Seq<char>,
    ports: Seq<char>,
    kind: Seq<char>,
    rtp: Seq<char>,
    rtcp: Seq<char>,
    mode: Seq<char>,
)
    ensures
        ({
            let end = seq!['\r', '\n'];
            let sp = seq![' '];
            let colon = seq![':'];
            let l1 = key + colon + sp + value + end;
            let l2 = audio + colon + sp + codec + end;
            let l3 = url + colon + sp + (presentation + none) + end;
            let l4 = ports + colon + sp + (kind + sp + rtp + sp + rtcp + mode) + end;
            key + (colon + sp) + value + end + audio + (colon + sp) + codec + (end + url + colon + sp)
                + presentation + (none + end + ports + colon + sp + kind + sp) + rtp + sp + rtcp + (
            mode + end) == l1 + l2 + l3 + l4
        }),
{
    let end = seq!['\r', '\n'];
    let sp = seq![' '];
    let colon = seq![':'];
    let l1 = key + colon + sp + value + end;
    let l2 = audio + colon + sp + codec + end;
    let l3 = url + colon + sp + (presentation + none) + end;
    let l4 = ports + colon + sp + (kind + sp + rtp + sp + rtcp + mode) + end;
    let a = key + (colon + sp) + value + end;
    assert(a =~= l1);
    let b = a + audio + (colon + sp) + codec + end;
    assert(b =~= l1 + l2);
    let c = b + url + colon + sp + presentation + none + end;
    assert(c =~= l1 + l2 + l3);
    let d = c + ports + colon + sp + kind + sp + rtp + sp + rtcp + mode + end;
    assert(d =~= l1 + l2 + l3 + l4);
    let whole = key + (colon + sp) + value + end + audio + (colon + sp) + codec + (end + url + colon
        + sp) + presentation + (none + end + ports + colon + sp + kind + sp) + rtp + sp + rtcp + (mode
        + end);
    assert(a + audio + (colon + sp) + codec + (end + url + colon + sp) =~= b + url + colon + sp);
    assert(b + url + colon + sp + presentation + (none + end + ports + colon + sp + kind + sp) =~= c
        + ports + colon + sp + kind + sp);
    assert(whole =~= d);
}

/// What is selected reads back as parameters: the format that was chosen under its name, the
/// sound or none under the name of the profile, the address of the presentation, and the ports,
/// which read back as the ports that were agreed.
pub proof fn law_selections_read_back(
    s: SessionModel,
    key: Seq<char>,
    value: Seq<char>,
    rtp: int,
    rtcp: int,
)
    requires
        wfd::descriptor(s.config) == Ok::<(Seq<char>, Seq<char>), WfdError<Seq<char>>>((key, value)),
        0 < rtp <= 65535,
        0 < rtcp <= 65535,
        rtcp != rtp,
        s.presentation.len() > 0 && !text::is_space(s.presentation[0]),
        text::is_without(s.presentation, '\n'),
    ensures
        ({
            let params = wfd::parameter_map(
                text::lines(session::selection(s, key, value, rtp, rtcp)),
            );
            let audio = if s.config.profile == Profile::Baseline {
                "wfd_audio_codecs"@
            } else {
                "wfd2_audio_codecs"@
            };
            &&& params.contains_key(key) && params[key] == value
            &&& params.contains_key(audio)
            &&& s.config.audio ==> params[audio] == "AAC 00000001 00"@
            &&& !s.config.audio ==> params[audio] == "none"@
            &&& params.contains_key("wfd_presentation_URL"@)
            &&& params["wfd_presentation_URL"@] == s.presentation + " none"@
            &&& params.contains_key("wfd_client_rtp_ports"@)
            &&& wfd::ports_of(params["wfd_client_rtp_ports"@]) == Ok::<
                (int, int),
                WfdError<Seq<char>>,
            >((rtp, rtcp))
        }),
{
    let end = seq!['\r', '\n'];
    let sp = seq![' '];
    let none = Seq::<char>::empty();
    let audio = if s.config.profile == Profile::Baseline {
        "wfd_audio_codecs"@
    } else {
        "wfd2_audio_codecs"@
    };
    let codec = if s.config.audio {
        "AAC 00000001 00"@
    } else {
        "none"@
    };
    let url = s.presentation + " none"@;
    let ports = "RTP/AVP/UDP;unicast"@ + sp + number::decimal(rtp) + sp + number::decimal(rtcp)
        + " mode=play"@;
    let l1 = key + seq![':'] + sp + value + end;
    let l2 = audio + seq![':'] + sp + codec + end;
    let l3 = "wfd_presentation_URL"@ + seq![':'] + sp + url + end;
    let l4 = "wfd_client_rtp_ports"@ + seq![':'] + sp + ports + end;
    lemma_selection_lines(s, key, value, rtp, rtcp);
    lemma_selection_words(s.config, key, value);
    lemma_selection_values(s.presentation, rtp, rtcp);
    assert(none + l1 =~= l1);
    wfd::law_a_line_sets_its_parameter(none, key, sp, value);
    wfd::law_a_line_sets_its_parameter(l1, audio, sp, codec);
    wfd::law_a_line_sets_its_parameter(l1 + l2, "wfd_presentation_URL"@, sp, url);
    wfd::law_a_line_sets_its_parameter(l1 + l2 + l3, "wfd_client_rtp_ports"@, sp, ports);
    reveal_strlit(" mode=play");
    wfd::law_ports_read_back(rtp, rtcp, " mode=play"@);
}

/// The values of a selection are one line each.
proof fn lemma_selection_values(presentation: Seq<char>, rtp: int, rtcp: int)
    requires
        0 <= rtp,
        0 <= rtcp,
        presentation.len() > 0 && !text::is_space(presentation[0]),
        text::is_without(presentation, '\n'),
    ensures
        ({
            let sp = seq![' '];
            let url = presentation + " none"@;
            let ports = "RTP/AVP/UDP;unicast"@ + sp + number::decimal(rtp) + sp + number::decimal(
                rtcp,
            ) + " mode=play"@;
            &&& text::is_without(url, '\n') && url.len() > 0 && !text::is_space(url[0])
                && !text::is_space(url.last())
            &&& text::is_without(ports, '\n') && ports.len() > 0 && !text::is_space(ports[0])
                && !text::is_space(ports.last())
        }),
{
    reveal_strlit(" none");
    reveal_strlit("RTP/AVP/UDP;unicast");
    reveal_strlit(" mode=play");
    let sp = seq![' '];
    let url = presentation + " none"@;
    let a = number::decimal(rtp);
    let b = number::decimal(rtcp);
    number::lemma_decimal(rtp);
    number::lemma_decimal(rtcp);
    let kind = "RTP/AVP/UDP;unicast"@;
    let ports = kind + sp + a + sp + b + " mode=play"@;
    assert(url[0] == presentation[0] && url.last() == " none"@[4]);
    assert forall|i: int| 0 <= i < url.len() implies #[trigger] url[i] != '\n' by {
        if i < presentation.len() {
            assert(url[i] == presentation[i]);
        } else {
            assert(url[i] == " none"@[i - presentation.len()]);
        }
    }
    assert(ports[0] == kind[0] && ports.last() == " mode=play"@[9]);
    assert forall|i: int| 0 <= i < ports.len() implies #[trigger] ports[i] != '\n' by {
        let n = kind.len();
        if i < n {
            assert(ports[i] == kind[i]);
        } else if i == n {
        } else if i <= n + a.len() {
            assert(ports[i] == a[i - n - 1]);
            assert(number::digit_value(a[i - n - 1]) < 10);
        } else if i == n + a.len() + 1 {
        } else if i < n + a.len() + 2 + b.len() {
            assert(ports[i] == b[i - n - a.len() - 2]);
            assert(number::digit_value(b[i - n - a.len() - 2]) < 10);
        } else {
            assert(ports[i] == " mode=play"@[i - n - a.len() - 2 - b.len()]);
        }
    }
}

/// The names and the fixed values of a selection.
proof fn lemma_selection_words(config: Config, key: Seq<char>, value: Seq<char>)
    requires
        wfd::descriptor(config) == Ok::<(Seq<char>, Seq<char>), WfdError<Seq<char>>>((key, value)),
    ensures
        is_name(key) && is_name("wfd_audio_codecs"@) && is_name("wfd2_audio_codecs"@),
        is_name("wfd_presentation_URL"@) && is_name("wfd_client_rtp_ports"@),
        is_name("none"@),
        is_line("AAC 00000001 00"@),
        is_line("none"@),
        is_line(value),
        key != "wfd_audio_codecs"@ && key != "wfd2_audio_codecs"@,
        key != "wfd_presentation_URL"@ && key != "wfd_client_rtp_ports"@,
        "wfd_audio_codecs"@ != "wfd_presentation_URL"@,
        "wfd_audio_codecs"@ != "wfd_client_rtp_ports"@,
        "wfd2_audio_codecs"@ != "wfd_presentation_URL"@,
        "wfd2_audio_codecs"@ != "wfd_client_rtp_ports"@,
        "wfd_presentation_URL"@ != "wfd_client_rtp_ports"@,
{
    reveal_strlit("wfd_audio_codecs");
    reveal_strlit("wfd2_audio_codecs");
    reveal_strlit("wfd_presentation_URL");
    reveal_strlit("wfd_client_rtp_ports");
    reveal_strlit("wfd_video_formats");
    reveal_strlit("wfd2_video_formats");
    reveal_strlit("none");
    reveal_strlit("AAC 00000001 00");
    assert("wfd_audio_codecs"@.len() == 16 && "wfd2_audio_codecs"@.len() == 17);
    assert("wfd_presentation_URL"@.len() == 20 && "wfd_client_rtp_ports"@.len() == 20);
    assert("wfd_presentation_URL"@[4] == 'p' && "wfd_client_rtp_ports"@[4] == 'c');
    assert("wfd_video_formats"@.len() == 17 && "wfd2_video_formats"@.len() == 18);
    assert("wfd_video_formats"@[3] == '_' && "wfd2_audio_codecs"@[3] == '2');
    lemma_formats_are_lines();
    wfd::law_selected_formats(config);
}

/// A name of a parameter.
spec fn is_name(s: Seq<char>) -> bool {
    &&& s.len() > 0 && !text::is_space(s[0]) && !text::is_space(s.last())
    &&& text::is_without(s, ':') && text::is_without(s, '\n')
}

/// A value of a parameter.
spec fn is_line(s: Seq<char>) -> bool {
    &&& s.len() > 0 ==> !text::is_space(s[0]) && !text::is_space(s.last())
    &&& text::is_without(s, '\n')
}

/// The formats are values of parameters.
proof fn lemma_formats_are_lines()
    ensures
        is_line("00 00 01 10 00000100 00000000 00000000 00 0000 0000 00 none none"@),
        is_line("00 00 01 10 00000080 00000000 00000000 00 0000 0000 00 none none"@),
        is_line("00 00 01 10 00000040 00000000 00000000 00 0000 0000 00 none none"@),
        is_line("00 02 01 0004 000000000100 000000000000 000000000000 00 0000 0000 00 00"@),
        is_line("00 01 04 0010 000000000100 000000000000 000000000000 00 0000 0000 00 00"@),
{
    reveal_strlit("00 00 01 10 00000100 00000000 00000000 00 0000 0000 00 none none");
    reveal_strlit("00 00 01 10 00000080 00000000 00000000 00 0000 0000 00 none none");
    reveal_strlit("00 00 01 10 00000040 00000000 00000000 00 0000 0000 00 none none");
    reveal_strlit("00 02 01 0004 000000000100 000000000000 000000000000 00 0000 0000 00 00");
    reveal_strlit("00 01 04 0010 000000000100 000000000000 000000000000 00 0000 0000 00 00");
}

// ---------------------------------------------------------------------------
// Answers
// ---------------------------------------------------------------------------

/// A reply to a question of the source that came in time.
pub open spec fn replies_to(s: SessionModel, m: rtsp::MessageModel, kind: Pending) -> bool {
    &&& m.cseq() is Ok && m.status() == Some(200int)
    &&& s.pending.contains_key(m.cseq()->Ok_0 as u32)
    &&& s.pending[m.cseq()->Ok_0 as u32] == kind
}

/// A request of the receiver.
pub open spec fn requests(m: rtsp::MessageModel, method: Seq<char>) -> bool {
    m.cseq() is Ok && m.status() is None && m.method() == method
}

/// The capabilities of a receiver are kept as they came, with whether it asks for key frames.
/// A probe ends there. Else the receiver has to name its ports, to play the sound that is
/// wanted and to play the profile that is wanted; what it lacks first is what the session ends
/// with. A list of the second form decides on the sound, whatever the list of the first form
/// says.
pub proof fn law_capabilities_are_checked(s: SessionModel, m: rtsp::MessageModel)
    requires
        replies_to(s, m, Pending::Capabilities),
    ensures
        ({
            let r = session::handled(s, m);
            let params = wfd::parameter_map(text::lines(m.body));
            let ports = params["wfd_client_rtp_ports"@];
            let named = params.contains_key("wfd_client_rtp_ports"@);
            let first = params.contains_key("wfd_audio_codecs"@);
            let second = params.contains_key("wfd2_audio_codecs"@);
            let plays = if second {
                wfd::offers_aac(params["wfd2_audio_codecs"@])
            } else {
                first && wfd::offers_aac(params["wfd_audio_codecs"@])
            };
            let rhp2 = s.config.profile == Profile::Rhp2;
            let good = named && wfd::ports_of(ports) is Ok;
            &&& r.state.negotiated.raw_capabilities == m.body
            &&& r.state.negotiated.idr_request_capability <==> params.contains_key(
                "wfd_idr_request_capability"@,
            ) && params["wfd_idr_request_capability"@] == "1"@
            &&& s.config.probe_codecs ==> r.result == Ok::<(Seq<Action<Seq<char>>>, bool), WfdError<Seq<char>>>((Seq::empty(), false)) && r.state.negotiated.target == s.negotiated.target
            &&& !s.config.probe_codecs && !named ==> r.result == Err::<(Seq<Action<Seq<char>>>, bool), WfdError<Seq<char>>>(WfdError::NoRtpPorts)
            &&& !s.config.probe_codecs && named && wfd::ports_of(ports) is Err ==> r.result is Err
                && r.result->Err_0 == wfd::ports_of(ports)->Err_0
            &&& !s.config.probe_codecs && !good ==> r.state.negotiated.target == s.negotiated.target
            &&& !s.config.probe_codecs && good ==> {
                &&& r.state.negotiated.target.port == wfd::ports_of(ports)->Ok_0.0 as u16
                &&& r.state.negotiated.target.ip == s.negotiated.target.ip
                &&& r.state.negotiated.rtcp_target is Some
                &&& r.state.negotiated.rtcp_target->Some_0.port == wfd::ports_of(ports)->Ok_0.1 as u16
                &&& r.state.negotiated.rtcp_target->Some_0.ip == s.negotiated.target.ip
                &&& s.config.audio && !first && !second ==> r.result == Err::<(Seq<Action<Seq<char>>>, bool), WfdError<Seq<char>>>(WfdError::NoAudio)
                &&& s.config.audio && (first || second) && !plays ==> r.result == Err::<(Seq<Action<Seq<char>>>, bool), WfdError<Seq<char>>>(WfdError::NoAac)
                &&& (s.config.audio ==> plays) && rhp2 && !wfd::offers_rhp2(m.body) ==> r.result
                    == Err::<(Seq<Action<Seq<char>>>, bool), WfdError<Seq<char>>>(
                    WfdError::NoRhp2,
                )
                &&& (s.config.audio ==> plays) && (rhp2 ==> wfd::offers_rhp2(m.body))
                    && wfd::descriptor(s.config) is Err ==> r.result is Err && r.result->Err_0
                    == wfd::descriptor(s.config)->Err_0
            }
        }),
{
}

/// A receiver that plays what is wanted is told what was selected for it, with the ports that
/// it named, and is awaited to accept it.
pub proof fn law_able_receivers_are_told_the_selection(
    s: SessionModel,
    m: rtsp::MessageModel,
    rtp: int,
    rtcp: int,
    key: Seq<char>,
    value: Seq<char>,
)
    requires
        replies_to(s, m, Pending::Capabilities),
        !s.config.probe_codecs,
        0 <= s.next_cseq <= 0xffff_ffff,
        ({
            let params = wfd::parameter_map(text::lines(m.body));
            &&& params.contains_key("wfd_client_rtp_ports"@)
            &&& wfd::ports_of(params["wfd_client_rtp_ports"@]) == Ok::<
                (int, int),
                WfdError<Seq<char>>,
            >((rtp, rtcp))
            &&& s.config.audio ==> params.contains_key("wfd2_audio_codecs"@) && wfd::offers_aac(
                params["wfd2_audio_codecs"@],
            ) || !params.contains_key("wfd2_audio_codecs"@) && params.contains_key(
                "wfd_audio_codecs"@,
            ) && wfd::offers_aac(params["wfd_audio_codecs"@])
            &&& s.config.profile == Profile::Rhp2 ==> wfd::offers_rhp2(m.body)
        }),
        wfd::descriptor(s.config) == Ok::<(Seq<char>, Seq<char>), WfdError<Seq<char>>>((key, value)),
    ensures
        ({
            let r = session::handled(s, m);
            &&& r.result == Ok::<(Seq<Action<Seq<char>>>, bool), WfdError<Seq<char>>>(
                (
                    seq![
                        Action::Send(
                            session::request_text(
                                "SET_PARAMETER"@,
                                "rtsp://localhost/wfd1.0"@,
                                s.next_cseq,
                                Seq::empty(),
                                session::selection(s, key, value, rtp, rtcp),
                            ),
                        ),
                    ],
                    false,
                ),
            )
            &&& r.state.pending.contains_key(s.next_cseq as u32)
            &&& r.state.pending[s.next_cseq as u32] == Pending::Parameters
            &&& r.state.next_cseq == s.next_cseq + 1
            &&& !r.state.pending.contains_key(m.cseq()->Ok_0 as u32) || m.cseq()->Ok_0 as u32
                == s.next_cseq as u32
        }),
{
}

/// A receiver that accepted the parameters is asked to set the session up; one that answers
/// that, or a sign of life, is asked for nothing.
pub proof fn law_accepted_parameters_lead_to_the_setup(s: SessionModel, m: rtsp::MessageModel)
    requires
        0 <= s.next_cseq <= 0xffff_ffff,
    ensures
        ({
            let r = session::handled(s, m);
            &&& replies_to(s, m, Pending::Parameters) ==> {
                &&& r.state.parameters_accepted
                &&& r.state.pending[s.next_cseq as u32] == Pending::Trigger
                &&& r.result == Ok::<(Seq<Action<Seq<char>>>, bool), WfdError<Seq<char>>>(
                    (
                        seq![
                            Action::Send(
                                session::request_text(
                                    "SET_PARAMETER"@,
                                    "rtsp://localhost/wfd1.0"@,
                                    s.next_cseq,
                                    Seq::empty(),
                                    "wfd_trigger_method: SETUP\r\n"@,
                                ),
                            ),
                        ],
                        false,
                    ),
                )
            }
            &&& replies_to(s, m, Pending::Trigger) || replies_to(s, m, Pending::Keepalive)
                || replies_to(s, m, Pending::Teardown) ==> {
                &&& r.result == Ok::<(Seq<Action<Seq<char>>>, bool), WfdError<Seq<char>>>((Seq::empty(), false))
                &&& r.state.parameters_accepted == s.parameters_accepted
                &&& r.state.setup_done == s.setup_done
            }
        }),
{
}

/// A reply to nothing that was asked ends the session, and a refusal does so with what was
/// refused and its status.
pub proof fn law_refusals_are_named(s: SessionModel, m: rtsp::MessageModel)
    requires
        m.cseq() is Ok,
        m.status() is Some,
    ensures
        ({
            let r = session::handled(s, m);
            let key = m.cseq()->Ok_0 as u32;
            &&& !s.pending.contains_key(key) ==> r.result == Err::<(Seq<Action<Seq<char>>>, bool), WfdError<Seq<char>>>(WfdError::UnmatchedResponse)
            &&& s.pending.contains_key(key) && m.status()->Some_0 != 200 ==> r.result == Err::<(Seq<Action<Seq<char>>>, bool), WfdError<Seq<char>>>(
                WfdError::Rejected { kind: s.pending[key], status: m.status()->Some_0 as u16 },
            )
            &&& s.pending.contains_key(key) ==> !r.state.pending.contains_key(key) || key
                == s.next_cseq as u32
        }),
{
}

// ---------------------------------------------------------------------------
// Requests of the receiver
// ---------------------------------------------------------------------------

/// The transport that is confirmed names the ports of the receiver, as a reader of transports
/// finds them, and the ports of the source.
pub proof fn law_confirmed_transports_read_back(rtp: int, rtcp: int)
    requires
        0 < rtp <= 65535,
        0 < rtcp <= 65535,
        rtcp != rtp,
    ensures
        wfd::transport_ports(session::confirmed_transport(rtp, rtcp)) == Ok::<
            (int, int),
            WfdError<Seq<char>>,
        >((rtp, rtcp)),
        text::contains(session::confirmed_transport(rtp, rtcp), ";server_port=50000-50001"@),
{
    let confirmed = session::confirmed_transport(rtp, rtcp);
    let a = number::decimal(rtp);
    let b = number::decimal(rtcp);
    let ports = "client_port="@ + (a + seq!['-'] + b);
    let parts = seq!["RTP/AVP/UDP"@, "unicast"@, ports, "server_port=50000-50001"@];
    lemma_confirmed_literals();
    lemma_server_ports();
    lemma_confirmed_order(
        parts[0],
        parts[1],
        "client_port="@,
        a,
        b,
        parts[3],
        "server_port="@,
        "50000"@,
        "50001"@,
    );
    lemma_four(parts);
    assert(confirmed == text::joined(parts, ';'));
    let front = parts[0] + seq![';'] + parts[1] + seq![';'] + parts[2];
    assert(confirmed =~= front + (seq![';'] + parts[3]));
    text::lemma_itself(";server_port=50000-50001"@);
    text::lemma_kept(front, ";server_port=50000-50001"@, ";server_port=50000-50001"@);
    lemma_parts_are_plain(rtp, rtcp);
    assert(parts[1] == "unicast"@);
    wfd::law_transports_read_back(parts, 2, rtp, Some(rtcp));
}

/// The texts between the ports of a transport.
proof fn lemma_confirmed_literals()
    ensures
        "RTP/AVP/UDP;unicast;client_port="@ == "RTP/AVP/UDP"@ + seq![';'] + "unicast"@ + seq![';']
            + "client_port="@,
        "-"@ == seq!['-'],
        ";server_port="@ == seq![';'] + "server_port="@,
        "server_port=50000-50001"@ == "server_port="@ + "50000"@ + seq!['-'] + "50001"@,
        ";server_port=50000-50001"@ == seq![';'] + "server_port=50000-50001"@,
{
    reveal_strlit("RTP/AVP/UDP");
    reveal_strlit("unicast");
    reveal_strlit("client_port=");
    reveal_strlit("server_port=50000-50001");
    reveal_strlit(";server_port=50000-50001");
    reveal_strlit("RTP/AVP/UDP;unicast;client_port=");
    reveal_strlit("-");
    reveal_strlit("50000");
    reveal_strlit("50001");
    reveal_strlit("server_port=");
    reveal_strlit(";server_port=");
    assert("RTP/AVP/UDP;unicast;client_port="@ =~= "RTP/AVP/UDP"@ + seq![';'] + "unicast"@
        + seq![';'] + "client_port="@);
    assert("-"@ =~= seq!['-']);
    assert(";server_port="@ =~= seq![';'] + "server_port="@);
    assert("server_port=50000-50001"@ =~= "server_port="@ + "50000"@ + seq!['-'] + "50001"@);
    assert(";server_port=50000-50001"@ =~= seq![';'] + "server_port=50000-50001"@);
}

/// The parts of a transport, one behind the other.
proof fn lemma_confirmed_order(
    kind: Seq<char>,
    cast: Seq<char>,
    client: Seq<char>,
    a: Seq<char>,
    b: Seq<char>,
    source: Seq<char>,
    server: Seq<char>,
    c: Seq<char>,
    d: Seq<char>,
)
    requires
        source == server + c + seq!['-'] + d,
    ensures
        (kind + seq![';'] + cast + seq![';'] + client) + a + seq!['-'] + b + (seq![';'] + server) + c
            + seq!['-'] + d == kind + seq![';'] + cast + seq![';'] + (client + (a + seq!['-'] + b))
            + seq![';'] + source,
{
    let front = kind + seq![';'] + cast + seq![';'];
    assert((front + client) + a + seq!['-'] + b =~= front + (client + (a + seq!['-'] + b)));
    let middle = front + (client + (a + seq!['-'] + b));
    assert(middle + (seq![';'] + server) + c + seq!['-'] + d =~= middle + seq![';'] + (server + c
        + seq!['-'] + d));
}

/// The parts of a transport hold no separators and no white space at their ends.
proof fn lemma_parts_are_plain(rtp: int, rtcp: int)
    requires
        0 <= rtp,
        0 <= rtcp,
    ensures
        ({
            let ports = "client_port="@ + (number::decimal(rtp) + seq!['-'] + number::decimal(rtcp));
            let parts = seq!["RTP/AVP/UDP"@, "unicast"@, ports, "server_port=50000-50001"@];
            &&& forall|i: int|
                0 <= i < parts.len() ==> text::is_without(#[trigger] parts[i], ';')
                    && parts[i].len() > 0 && !text::is_space(parts[i][0]) && !text::is_space(
                    parts[i].last(),
                )
            &&& forall|j: int|
                0 <= j < 2 ==> !text::starts_with(#[trigger] parts[j], "client_port="@)
        }),
{
    reveal_strlit("RTP/AVP/UDP");
    reveal_strlit("unicast");
    reveal_strlit("client_port=");
    reveal_strlit("server_port=50000-50001");
    lemma_decimal_is_plain(rtp);
    lemma_decimal_is_plain(rtcp);
    let a = number::decimal(rtp);
    let b = number::decimal(rtcp);
    let ports = "client_port="@ + (a + seq!['-'] + b);
    assert(ports.last() == b.last());
    assert(ports[0] == 'c');
    assert forall|j: int| 0 <= j < ports.len() implies #[trigger] ports[j] != ';' by {
        if j < 12 {
            assert(ports[j] == "client_port="@[j]);
        } else if j < 12 + a.len() {
            assert(ports[j] == a[j - 12]);
        } else if j > 12 + a.len() {
            assert(ports[j] == b[j - 13 - a.len()]);
        }
    }
}

/// Four parts with a separator between them.
proof fn lemma_four(parts: Seq<Seq<char>>)
    requires
        parts.len() == 4,
    ensures
        text::joined(parts, ';') == parts[0] + seq![';'] + parts[1] + seq![';'] + parts[2]
            + seq![';'] + parts[3],
{
    reveal_with_fuel(text::joined, 5);
    assert(text::joined(parts, ';') =~= parts[0] + seq![';'] + parts[1] + seq![';'] + parts[2]
        + seq![';'] + parts[3]);
}

/// The ports of the source, in decimal.
proof fn lemma_server_ports()
    ensures
        number::decimal(wfd::LOCAL_RTP_PORT as int) == "50000"@,
        number::decimal(wfd::LOCAL_RTCP_PORT as int) == "50001"@,
{
    reveal_strlit("50000");
    reveal_strlit("50001");
    reveal_with_fuel(number::decimal, 6);
    assert(number::decimal(50000) =~= "50000"@);
    assert(number::decimal(50001) =~= "50001"@);
}

/// Decimal numbers hold no white space and no separators.
proof fn lemma_decimal_is_plain(n: int)
    requires
        0 <= n,
    ensures
        number::decimal(n).len() > 0,
        text::is_without(number::decimal(n), ';'),
        !text::is_space(number::decimal(n).last()),
{
    number::lemma_decimal(n);
    let s = number::decimal(n);
    assert forall|i: int| 0 <= i < s.len() implies #[trigger] s[i] != ';' by {
        assert(number::digit_value(s[i]) < 10);
    }
    assert(number::digit_value(s[s.len() - 1]) < 10);
}

/// A setup that comes when the parameters were accepted is confirmed with its ports and the
/// name of the session, which lives for a minute without a sign; media go to those ports from
/// then on. One whose transport cannot be had is refused, and changes nothing.
pub proof fn law_setups_are_confirmed(s: SessionModel, m: rtsp::MessageModel, rtp: int, rtcp: int)
    requires
        requests(m, "SETUP"@),
        s.parameters_accepted,
        0 < rtp <= 65535,
        0 < rtcp <= 65535,
    ensures
        ({
            let r = session::handled(s, m);
            let none = Seq::<(Seq<char>, Seq<char>)>::empty();
            let found = wfd::transport_ports(m.headers["transport"@]);
            &&& m.headers.contains_key("transport"@) && found == Ok::<
                (int, int),
                WfdError<Seq<char>>,
            >((rtp, rtcp)) ==> {
                &&& r.state.setup_done
                &&& r.state.negotiated.target.port == rtp
                &&& r.state.negotiated.rtcp_target is Some
                &&& r.state.negotiated.rtcp_target->Some_0.port == rtcp
                &&& r.state.negotiated.rtcp_target->Some_0.ip == s.negotiated.target.ip
                &&& r.result == Ok::<(Seq<Action<Seq<char>>>, bool), WfdError<Seq<char>>>(
                    (
                        seq![
                            session::answer(
                                200,
                                m.cseq()->Ok_0,
                                seq![
                                    ("Transport"@, session::confirmed_transport(rtp, rtcp)),
                                    ("Session"@, s.session_id + ";timeout=60"@),
                                ],
                            ),
                        ],
                        false,
                    ),
                )
            }
            &&& !m.headers.contains_key("transport"@) || found is Err ==> {
                &&& r.state == s
                &&& r.result == Ok::<(Seq<Action<Seq<char>>>, bool), WfdError<Seq<char>>>((seq![session::answer(461, m.cseq()->Ok_0, none)], false))
            }
        }),
{
    lemma_methods();
    lemma_nothing_is_no_transport();
}

/// No transport can be read from nothing.
proof fn lemma_nothing_is_no_transport()
    ensures
        wfd::transport_ports(Seq::empty()) is Err,
{
    let none = Seq::<char>::empty();
    reveal_strlit("RTP/AVP");
    reveal_strlit("RTP/AVP/UDP");
    text::law_joined_texts_are_parted(seq![none], ';');
    reveal_with_fuel(text::joined, 2);
    assert(text::joined(seq![none], ';') =~= none);
    assert(text::split(none, ';') =~= seq![none]);
    assert(wfd::transport_parts(none)[0].len() == 0);
}

/// The names of the methods differ.
proof fn lemma_methods()
    ensures
        "OPTIONS"@.len() == 7,
        "SETUP"@.len() == 5 && "SETUP"@[0] == 'S',
        "PLAY"@.len() == 4,
        "PAUSE"@.len() == 5 && "PAUSE"@[0] == 'P',
        "TEARDOWN"@.len() == 8,
        "GET_PARAMETER"@.len() == 13 && "GET_PARAMETER"@[0] == 'G',
        "SET_PARAMETER"@.len() == 13 && "SET_PARAMETER"@[0] == 'S',
{
    reveal_strlit("OPTIONS");
    reveal_strlit("SETUP");
    reveal_strlit("PLAY");
    reveal_strlit("PAUSE");
    reveal_strlit("TEARDOWN");
    reveal_strlit("GET_PARAMETER");
    reveal_strlit("SET_PARAMETER");
}

/// In a session that was set up, each request for the media tells them what it names, is
/// answered, and ends the session where it is the last. One for another session is refused, as
/// are all of them before the setup: then the media are told nothing. What stands behind the
/// name of the session counts for nothing.
pub proof fn law_media_do_what_the_receiver_asks(
    s: SessionModel,
    m: rtsp::MessageModel,
    name: Seq<char>,
    rest: Seq<char>,
)
    requires
        m.cseq() is Ok,
        m.status() is None,
        m.method() == "PLAY"@ || m.method() == "PAUSE"@ || m.method() == "TEARDOWN"@,
        text::is_without(name, ';'),
        m.headers.contains_key("session"@) ==> m.headers["session"@] == name
            || m.headers["session"@] == name + seq![';'] + rest,
    ensures
        ({
            let r = session::handled(s, m);
            let cseq = m.cseq()->Ok_0;
            let none = Seq::<(Seq<char>, Seq<char>)>::empty();
            let ours = m.headers.contains_key("session"@) ==> name == s.session_id;
            let told = if m.method() == "PLAY"@ {
                Event::Play
            } else if m.method() == "PAUSE"@ {
                Event::Pause
            } else {
                Event::Teardown
            };
            &&& r.state == s
            &&& !s.setup_done ==> r.result == Ok::<(Seq<Action<Seq<char>>>, bool), WfdError<Seq<char>>>((seq![session::answer(455, cseq, none)], false))
            &&& s.setup_done && !ours ==> r.result == Ok::<(Seq<Action<Seq<char>>>, bool), WfdError<Seq<char>>>((seq![session::answer(454, cseq, none)], false))
            &&& s.setup_done && ours ==> r.result == Ok::<(Seq<Action<Seq<char>>>, bool), WfdError<Seq<char>>>(
                (
                    seq![
                        Action::Emit(told),
                        session::answer(200, cseq, seq![("Session"@, s.session_id)]),
                    ],
                    m.method() == "TEARDOWN"@,
                ),
            )
        }),
{
    lemma_methods();
    if m.headers.contains_key("session"@) {
        if m.headers["session"@] == name {
            text::law_joined_texts_are_parted(seq![name], ';');
            reveal_with_fuel(text::joined, 2);
            assert(text::joined(seq![name], ';') =~= name);
        } else {
            lemma_first_part(name, rest);
        }
        assert(text::split(m.headers["session"@], ';')[0] == name);
    }
}

/// What stands before the first separator is the first part.
proof fn lemma_first_part(name: Seq<char>, rest: Seq<char>)
    requires
        text::is_without(name, ';'),
    ensures
        text::split(name + seq![';'] + rest, ';')[0] == name,
{
    let whole = name + seq![';'] + rest;
    text::lemma_find_behind(name, ';', rest);
    assert(whole.take(name.len() as int) =~= name);
}

/// A receiver asks for a key frame with a parameter of that name, or with its bare name; it
/// ends the session with the trigger for that. Whatever else it sets is answered and changes
/// nothing.
pub proof fn law_parameters_of_the_receiver(s: SessionModel, m: rtsp::MessageModel)
    requires
        requests(m, "SET_PARAMETER"@),
    ensures
        ({
            let r = session::handled(s, m);
            let params = wfd::parameter_map(text::lines(m.body));
            let done = session::answer(200, m.cseq()->Ok_0, Seq::empty());
            let key_frame = params.contains_key("wfd_idr_request"@) || text::trim(m.body)
                == "wfd_idr_request"@;
            let ends = params.contains_key("wfd_trigger_method"@) && params["wfd_trigger_method"@]
                == "TEARDOWN"@;
            let idr = Action::<Seq<char>>::Emit(Event::Idr);
            let teardown = Action::<Seq<char>>::Emit(Event::Teardown);
            &&& r.state == s
            &&& r.result is Ok && r.result->Ok_0.1 == ends
            &&& !key_frame && !ends ==> r.result->Ok_0.0 == seq![done]
            &&& key_frame && !ends ==> r.result->Ok_0.0 == seq![idr, done]
            &&& !key_frame && ends ==> r.result->Ok_0.0 == seq![done, teardown]
            &&& key_frame && ends ==> r.result->Ok_0.0 == seq![idr, done, teardown]
        }),
{
    lemma_methods();
    let done = session::answer(200, m.cseq()->Ok_0, Seq::empty());
    let idr = Action::<Seq<char>>::Emit(Event::Idr);
    let teardown = Action::<Seq<char>>::Emit(Event::Teardown);
    let none = Seq::<Action<Seq<char>>>::empty();
    assert(none + seq![done] + none =~= seq![done]);
    assert(seq![idr] + seq![done] + none =~= seq![idr, done]);
    assert(none + seq![done] + seq![teardown] =~= seq![done, teardown]);
    assert(seq![idr] + seq![done] + seq![teardown] =~= seq![idr, done, teardown]);
}

/// A sign of life of the receiver is answered with the name of the session, and what is not
/// offered is refused.
pub proof fn law_other_requests(s: SessionModel, m: rtsp::MessageModel)
    requires
        m.cseq() is Ok,
        m.status() is None,
    ensures
        ({
            let r = session::handled(s, m);
            let cseq = m.cseq()->Ok_0;
            let none = Seq::<(Seq<char>, Seq<char>)>::empty();
            &&& m.method() == "GET_PARAMETER"@ ==> r.state == s && r.result == Ok::<(Seq<Action<Seq<char>>>, bool), WfdError<Seq<char>>>(
                (seq![session::answer(200, cseq, seq![("Session"@, s.session_id)])], false),
            )
            &&& m.method() != "OPTIONS"@ && m.method() != "SETUP"@ && m.method() != "PLAY"@
                && m.method() != "PAUSE"@ && m.method() != "TEARDOWN"@ && m.method()
                != "GET_PARAMETER"@ && m.method() != "SET_PARAMETER"@ ==> r.state == s && r.result
                == Ok::<(Seq<Action<Seq<char>>>, bool), WfdError<Seq<char>>>((seq![session::answer(501, cseq, none)], false))
        }),
{
    lemma_methods();
}

/// A status is given in words behind its number, whatever else the reply holds.
pub proof fn law_statuses_are_in_words(
    sequence: int,
    headers: Seq<(Seq<char>, Seq<char>)>,
    body: Seq<char>,
)
    ensures
        text::starts_with(session::reply_text(200, sequence, headers, body), "RTSP/1.0 200 OK"@),
        text::starts_with(
            session::reply_text(400, sequence, headers, body),
            "RTSP/1.0 400 Bad Request"@,
        ),
        text::starts_with(
            session::reply_text(454, sequence, headers, body),
            "RTSP/1.0 454 Session Not Found"@,
        ),
        text::starts_with(
            session::reply_text(455, sequence, headers, body),
            "RTSP/1.0 455 Method Not Valid in This State"@,
        ),
        text::starts_with(
            session::reply_text(461, sequence, headers, body),
            "RTSP/1.0 461 Unsupported Transport"@,
        ),
        text::starts_with(
            session::reply_text(501, sequence, headers, body),
            "RTSP/1.0 501 Not Implemented"@,
        ),
{
    reveal_strlit("RTSP/1.0 200 OK");
    reveal_strlit("RTSP/1.0 400 Bad Request");
    reveal_strlit("RTSP/1.0 454 Session Not Found");
    reveal_strlit("RTSP/1.0 455 Method Not Valid in This State");
    reveal_strlit("RTSP/1.0 461 Unsupported Transport");
    reveal_strlit("RTSP/1.0 501 Not Implemented");
    reveal_strlit("OK");
    reveal_strlit("Bad Request");
    reveal_strlit("Session Not Found");
    reveal_strlit("Method Not Valid in This State");
    reveal_strlit("Unsupported Transport");
    reveal_strlit("Not Implemented");
    reveal_strlit("RTSP/1.0 ");
    reveal_strlit(" ");
    reveal_strlit("200");
    reveal_strlit("400");
    reveal_strlit("454");
    reveal_strlit("455");
    reveal_strlit("461");
    reveal_strlit("501");
    lemma_statuses();
    assert("RTSP/1.0 200 OK"@ =~= "RTSP/1.0 "@ + "200"@ + " "@ + "OK"@);
    assert("RTSP/1.0 400 Bad Request"@ =~= "RTSP/1.0 "@ + "400"@ + " "@ + "Bad Request"@);
    assert("RTSP/1.0 454 Session Not Found"@ =~= "RTSP/1.0 "@ + "454"@ + " "@
        + "Session Not Found"@);
    assert("RTSP/1.0 455 Method Not Valid in This State"@ =~= "RTSP/1.0 "@ + "455"@ + " "@
        + "Method Not Valid in This State"@);
    assert("RTSP/1.0 461 Unsupported Transport"@ =~= "RTSP/1.0 "@ + "461"@ + " "@
        + "Unsupported Transport"@);
    assert("RTSP/1.0 501 Not Implemented"@ =~= "RTSP/1.0 "@ + "501"@ + " "@ + "Not Implemented"@);
    lemma_status_first(200, "RTSP/1.0 200 OK"@, sequence, headers, body);
    lemma_status_first(400, "RTSP/1.0 400 Bad Request"@, sequence, headers, body);
    lemma_status_first(454, "RTSP/1.0 454 Session Not Found"@, sequence, headers, body);
    lemma_status_first(455, "RTSP/1.0 455 Method Not Valid in This State"@, sequence, headers, body);
    lemma_status_first(461, "RTSP/1.0 461 Unsupported Transport"@, sequence, headers, body);
    lemma_status_first(501, "RTSP/1.0 501 Not Implemented"@, sequence, headers, body);
}

/// The statuses, in decimal.
proof fn lemma_statuses()
    ensures
        number::decimal(200) == "200"@,
        number::decimal(400) == "400"@,
        number::decimal(454) == "454"@,
        number::decimal(455) == "455"@,
        number::decimal(461) == "461"@,
        number::decimal(501) == "501"@,
{
    reveal_strlit("200");
    reveal_strlit("400");
    reveal_strlit("454");
    reveal_strlit("455");
    reveal_strlit("461");
    reveal_strlit("501");
    reveal_with_fuel(number::decimal, 4);
    assert(number::decimal(200) =~= "200"@);
    assert(number::decimal(400) =~= "400"@);
    assert(number::decimal(454) =~= "454"@);
    assert(number::decimal(455) =~= "455"@);
    assert(number::decimal(461) =~= "461"@);
    assert(number::decimal(501) =~= "501"@);
}

/// A reply begins with its status.
proof fn lemma_status_first(
    status: int,
    line: Seq<char>,
    sequence: int,
    headers: Seq<(Seq<char>, Seq<char>)>,
    body: Seq<char>,
)
    requires
        line == "RTSP/1.0 "@ + number::decimal(status) + " "@ + session::reason(status),
    ensures
        text::starts_with(session::reply_text(status, sequence, headers, body), line),
{
    let whole = session::reply_text(status, sequence, headers, body);
    assert(whole.take(line.len() as int) =~= line);
}

// ---------------------------------------------------------------------------
// Times
// ---------------------------------------------------------------------------

/// A sign of life is due fifteen seconds after the last and not before; it is then counted
/// from anew. The receiver is silent when nothing was heard of it for forty-five seconds. A
/// clock that went back counts for nothing.
pub proof fn law_signs_of_life_in_time(s: SessionModel, now: int, later: int)
    requires
        0 <= s.last_keepalive,
        0 <= s.last_received,
        0 <= now <= later,
    ensures
        session::keepalive_due(s, now) <==> now >= s.last_keepalive + 15_000,
        session::is_silent(s, now) <==> now >= s.last_received + 45_000,
        session::keepalive_due(s, now) ==> {
            let next = session::after_due(s, false, now);
            session::keepalive_due(next, later) <==> later - now >= 15_000
        },
        ({
            let next = session::after_due(s, false, now);
            next.last_received == s.last_received && next.setup_done == s.setup_done
        }),
{
}

/// What is due: when the user ends the session, the trigger for it, after which the media are
/// told; else a question with the name of the session when a sign of life is due, and nothing
/// when none is.
pub proof fn law_what_is_due(s: SessionModel, now: int)
    requires
        0 <= s.next_cseq <= 0xffff_ffff,
    ensures
        session::due_actions(s, true, now) == seq![
            Action::SendLast(
                session::request_text(
                    "SET_PARAMETER"@,
                    "rtsp://localhost/wfd1.0"@,
                    s.next_cseq,
                    Seq::empty(),
                    "wfd_trigger_method: TEARDOWN\r\n"@,
                ),
            ),
            Action::Emit(Event::Teardown),
        ],
        session::after_due(s, true, now).pending[s.next_cseq as u32] == Pending::Teardown,
        now - s.last_keepalive >= 15_000 && now >= 0 && s.last_keepalive >= 0
            ==> session::due_actions(s, false, now) == seq![
            Action::Send(
                session::request_text(
                    "GET_PARAMETER"@,
                    "rtsp://localhost/wfd1.0"@,
                    s.next_cseq,
                    seq![("Session"@, s.session_id)],
                    Seq::empty(),
                ),
            ),
        ] && session::after_due(s, false, now).pending[s.next_cseq as u32] == Pending::Keepalive,
        now - s.last_keepalive < 15_000 ==> session::due_actions(s, false, now) == Seq::<
            Action<Seq<char>>,
        >::empty() && session::after_due(s, false, now) == s,
{
}

/// A session begins with nothing agreed, for the receiver that connected, at the time at which
/// it did. Its presentation is at the address of the source, and its name is eight digits that
/// read back as the process.
pub proof fn law_sessions_begin(config: Config, local: Seq<char>, peer: wfd::Ip, process: u32, now: int)
    ensures
        ({
            let s = session::initial(config, local, peer, process, now);
            &&& s.negotiated.target.ip == peer && s.negotiated.rtcp_target is None
            &&& s.negotiated.probe_only == config.probe_codecs
            &&& s.negotiated.raw_capabilities.len() == 0 && !s.negotiated.idr_request_capability
            &&& s.config == config && s.bytes.len() == 0 && s.next_cseq == 1
            &&& s.pending =~= Map::<u32, Pending>::empty()
            &&& !s.options_reply && !s.sink_options && !s.capabilities_sent
            &&& !s.parameters_accepted && !s.setup_done
            &&& s.last_received == now && s.last_keepalive == now
            &&& text::starts_with(s.presentation, "rtsp://"@)
            &&& s.presentation.skip(7) == local + "/wfd1.0/streamid=0"@
            &&& s.session_id.len() == 8
            &&& number::number(s.session_id, 16, 0xffff_ffff) == Some(process as int)
        }),
{
    let s = session::initial(config, local, peer, process, now);
    reveal_strlit("rtsp://");
    assert(s.presentation.take(7) =~= "rtsp://"@);
    assert(s.presentation.skip(7) =~= local + "/wfd1.0/streamid=0"@);
    reveal_with_fuel(number::power, 10);
    assert(number::power(16, 4) == 0x1_0000);
    assert(number::power(16, 8) == 0x1_0000_0000);
    number::law_hexadecimal_reads_back(process as int, 8, 0xffff_ffff);
}

} // verus!
