use vstd::prelude::*;
use vstd::string::StringExecFns;
use crate::codec::{
    base62_value, decode, encode, is_base62_digit, is_id_text, lemma_decode_encode, track_text, TrackId,
};
use crate::error::ControlError;
use crate::http::{cors_values_only, has_cors, Response};
use crate::json::{
    is_plain_char, is_plain_text, json_object_array, json_plain_array, json_string_array,
    object_array_to_json, string_array_to_json,
};
use crate::router::{same_text, Route};

verus! {

/// The transport commands that `PUT /:device/:cmd` accepts.
#[derive(Clone, Copy, Debug, PartialEq, Eq, Structural)]
pub enum TransportCommand {
    Pause,
    Play,
    Next,
    Prev,
}

/// A command for the session, addressed to one device.
#[derive(Debug)]
pub enum Command {
    Pause,
    Play,
    Next,
    Prev,
    /// Replace the queue with these tracks, in this order.
    ReplaceQueue(Vec<TrackId>),
    /// Append these tracks to the queue, in this order.
    AppendQueue(Vec<TrackId>),
}

/// A device known to the session: its id and its display name.
#[derive(Clone, Debug)]
pub struct Device {
    pub id: String,
    pub name: String,
}

/// A snapshot of a device's queue: the tracks and the current position.
#[derive(Clone, Debug)]
pub struct TrackQueue {
    pub ids: Vec<TrackId>,
    pub index: u32,
}

/// Which view of a device's queue a read request renders.
#[derive(Clone, Copy, Debug, PartialEq, Eq, Structural)]
pub enum QueueRead {
    AllTracks,
    CurrentTrack,
}

/// What the server does next for a request.
#[derive(Debug)]
pub enum Step {
    /// Send this response.
    Respond(Response),
    /// Read the device list from the session, then answer with
    /// `devices_response`.
    FetchDevices,
    /// Read this device's queue from the session, then answer with
    /// `queue_response`.
    FetchQueue(String, QueueRead),
    /// Submit this command for this device, then answer with
    /// `submitted_response`.
    Submit(String, Command),
}

pub open spec fn spec_parse_command(token: Seq<char>) -> Option<TransportCommand> {
    if token == "pause"@ {
        Some(TransportCommand::Pause)
    } else if token == "play"@ {
        Some(TransportCommand::Play)
    } else if token == "next"@ {
        Some(TransportCommand::Next)
    } else if token == "prev"@ {
        Some(TransportCommand::Prev)
    } else {
        None
    }
}

/// Reads a transport command token: one of `pause`, `play`, `next`, `prev`.
pub fn parse_command(token: &str) -> (r: Option<TransportCommand>)
    ensures
        r == spec_parse_command(token@),
{
    if same_text(token, "pause") {
        Some(TransportCommand::Pause)
    } else if same_text(token, "play") {
        Some(TransportCommand::Play)
    } else if same_text(token, "next") {
        Some(TransportCommand::Next)
    } else if same_text(token, "prev") {
        Some(TransportCommand::Prev)
    } else {
        None
    }
}

/// Every text in `ids` is a track id.
pub open spec fn all_track_texts(ids: Seq<String>) -> bool {
    forall|i: int| 0 <= i < ids.len() ==> is_id_text(#[trigger] ids[i]@)
}

/// The track ids that `ids` write, in order.
pub open spec fn decoded_ids(ids: Seq<String>) -> Seq<TrackId> {
    ids.map_values(|s: String| TrackId { id: base62_value(s@) as u128 })
}

/// Decodes a list of track id texts, keeping their order; fails as a whole
/// if any of them is malformed.
pub fn decode_all(ids: &Vec<String>) -> (r: Result<Vec<TrackId>, ControlError>)
    ensures
        r is Ok <==> all_track_texts(ids@),
        r matches Ok(v) ==> v@ == decoded_ids(ids@),
        r matches Err(e) ==> e == ControlError::MalformedIdentifier,
{
    let mut out: Vec<TrackId> = Vec::new();
    let mut i: usize = 0;
    while i < ids.len()
        invariant
            i <= ids@.len(),
            all_track_texts(ids@.subrange(0, i as int)),
            out@ == decoded_ids(ids@.subrange(0, i as int)),
        decreases ids@.len() - i,
    {
        match decode(ids[i].as_str()) {
            Ok(t) => {
                out.push(t);
                proof {
                    assert(ids@.subrange(0, i + 1) == ids@.subrange(0, i as int).push(ids@[i as int]));
                    assert(out@ =~= decoded_ids(ids@.subrange(0, i + 1)));
                }
            },
            Err(e) => {
                assert(!is_id_text(ids@[i as int]@));
                return Err(e);
            },
        }
        i = i + 1;
    }
    assert(ids@.subrange(0, ids@.len() as int) == ids@);
    Ok(out)
}

/// The tracks that a queue-changing request with `id` values `ids` submits,
/// or why it fails.
pub open spec fn queue_outcome(ids: &Option<Vec<String>>) -> Result<Seq<TrackId>, ControlError> {
    match ids {
        None => Err(ControlError::MissingRequiredField),
        Some(v) => if v@.len() == 0 {
            Err(ControlError::MissingRequiredField)
        } else if !all_track_texts(v@) {
            Err(ControlError::MalformedIdentifier)
        } else {
            Ok(decoded_ids(v@))
        },
    }
}

/// The command that a `PUT` or `POST` on `/:device/tracks` submits: its
/// `id` values, which must be present and all valid.
pub fn queue_command(ids: &Option<Vec<String>>, replace: bool) -> (r: Result<Command, ControlError>)
    ensures
        match ids {
            None => r == Err::<Command, ControlError>(ControlError::MissingRequiredField),
            Some(v) => if v@.len() == 0 {
                r == Err::<Command, ControlError>(ControlError::MissingRequiredField)
            } else if !all_track_texts(v@) {
                r == Err::<Command, ControlError>(ControlError::MalformedIdentifier)
            } else if replace {
                r matches Ok(Command::ReplaceQueue(t)) && t@ == decoded_ids(v@)
            } else {
                r matches Ok(Command::AppendQueue(t)) && t@ == decoded_ids(v@)
            },
        },
{
    match ids {
        None => Err(ControlError::MissingRequiredField),
        Some(v) => {
            if v.len() == 0 {
                return Err(ControlError::MissingRequiredField);
            }
            match decode_all(v) {
                Ok(t) => if replace {
                    Ok(Command::ReplaceQueue(t))
                } else {
                    Ok(Command::AppendQueue(t))
                },
                Err(e) => Err(e),
            }
        },
    }
}

/// The JSON objects that describe the devices: `id` and `name` of each.
pub open spec fn device_objects(devs: Seq<Device>) -> Seq<Seq<(Seq<char>, Seq<char>)>> {
    devs.map_values(|d: Device| seq![("id"@, d.id@), ("name"@, d.name@)])
}

/// The answer to `GET /devices`: the devices as a JSON array.
pub fn devices_response(devs: &Vec<Device>) -> (r: Response)
    ensures
        r.status == 200,
        r.body@ == json_object_array(device_objects(devs@)),
        devs@.len() == 0 ==> r.body@ == seq!['[', ']'],
        has_cors(&r),
        cors_values_only(&r),
{
    let mut objects: Vec<Vec<(String, String)>> = Vec::new();
    let mut i: usize = 0;
    while i < devs.len()
        invariant
            i <= devs@.len(),
            crate::json::object_texts(objects@) == device_objects(devs@.subrange(0, i as int)),
        decreases devs@.len() - i,
    {
        let d = &devs[i];
        let mut o: Vec<(String, String)> = Vec::new();
        o.push((String::from_str("id"), d.id.clone()));
        o.push((String::from_str("name"), d.name.clone()));
        let ghost prev = objects@;
        objects.push(o);
        proof {
            let sub = devs@.subrange(0, i as int);
            assert(crate::json::pair_texts(o@) =~= seq![("id"@, d.id@), ("name"@, d.name@)]);
            assert(devs@.subrange(0, i + 1) =~= sub.push(devs@[i as int]));
            assert(crate::json::object_texts(prev.push(o)) =~= crate::json::object_texts(prev).push(
                crate::json::pair_texts(o@),
            ));
            assert(device_objects(sub.push(devs@[i as int])) =~= device_objects(sub).push(
                seq![("id"@, d.id@), ("name"@, d.name@)],
            ));
        }
        i = i + 1;
    }
    assert(devs@.subrange(0, devs@.len() as int) == devs@);
    Response::new(200, object_array_to_json(&objects))
}

/// The text forms of the tracks of a queue, in queue order.
pub open spec fn track_texts(ids: Seq<TrackId>) -> Seq<Seq<char>> {
    ids.map_values(|t: TrackId| track_text(t))
}

pub open spec fn no_tracks_message() -> Seq<char> {
    "No tracks for that device id."@
}

pub open spec fn no_track_message() -> Seq<char> {
    "No track for that device id."@
}

/// The answer to a read of a device's queue, given what the session holds
/// for that device (`None` for an unknown device). All tracks come as a
/// JSON array of their text forms; the current track as its bare text form.
/// A current position outside the queue is answered as a missing track.
pub fn queue_response(read: QueueRead, queue: &Option<TrackQueue>) -> (r: Response)
    ensures
        has_cors(&r),
        cors_values_only(&r),
        match (read, queue) {
            (QueueRead::AllTracks, None) => r.status == 404 && r.body@ == no_tracks_message(),
            (QueueRead::AllTracks, Some(q)) => r.status == 200 && r.body@ == json_string_array(
                track_texts(q.ids@),
            ) && r.body@ == json_plain_array(track_texts(q.ids@)),
            (QueueRead::CurrentTrack, None) => r.status == 404 && r.body@ == no_track_message(),
            (QueueRead::CurrentTrack, Some(q)) => if q.index < q.ids@.len() {
                r.status == 200 && r.body@ == track_text(q.ids@[q.index as int])
            } else {
                r.status == 404 && r.body@ == no_track_message()
            },
        },
{
    match queue {
        None => match read {
            QueueRead::AllTracks => Response::new(404, String::from_str("No tracks for that device id.")),
            QueueRead::CurrentTrack => Response::new(404, String::from_str("No track for that device id.")),
        },
        Some(q) => match read {
            QueueRead::AllTracks => {
                let mut texts: Vec<String> = Vec::new();
                let mut i: usize = 0;
                while i < q.ids.len()
                    invariant
                        i <= q.ids@.len(),
                        crate::json::texts(texts@) == track_texts(q.ids@.subrange(0, i as int)),
                    decreases q.ids@.len() - i,
                {
                    let ghost prev = texts@;
                    let t = encode(q.ids[i]);
                    texts.push(t);
                    proof {
                        let sub = q.ids@.subrange(0, i as int);
                        assert(q.ids@.subrange(0, i + 1) =~= sub.push(q.ids@[i as int]));
                        assert(crate::json::texts(prev.push(t)) =~= crate::json::texts(prev).push(t@));
                        assert(track_texts(sub.push(q.ids@[i as int])) =~= track_texts(sub).push(
                            track_text(q.ids@[i as int]),
                        ));
                    }
                    i = i + 1;
                }
                assert(q.ids@.subrange(0, q.ids@.len() as int) == q.ids@);
                proof {
                    assert forall|j: int| 0 <= j < texts@.len() implies is_plain_text(
                        #[trigger] texts@[j]@,
                    ) by {
                        assert(crate::json::texts(texts@)[j] == track_texts(q.ids@)[j]);
                        lemma_decode_encode(q.ids@[j]);
                        let t = track_text(q.ids@[j]);
                        assert forall|k: int| 0 <= k < t.len() implies #[trigger] is_plain_char(t[k]) by {
                            assert(is_base62_digit(t[k]));
                        }
                    }
                }
                Response::new(200, string_array_to_json(&texts))
            },
            QueueRead::CurrentTrack => {
                let k = q.index as usize;
                if k < q.ids.len() {
                    Response::new(200, encode(q.ids[k]))
                } else {
                    Response::new(404, String::from_str("No track for that device id."))
                }
            },
        },
    }
}

/// What to do for a routed request; `ids` are the values of the request's
/// `id` form field, `None` where the field is absent.
pub fn plan(route: &Route, ids: &Option<Vec<String>>) -> (r: Step)
    ensures
        match route {
            Route::ListDevices => r matches Step::FetchDevices,
            Route::DeviceTracks(d) => r matches Step::FetchQueue(e, QueueRead::AllTracks) && e@ == d@,
            Route::CurrentTrack(d) => r matches Step::FetchQueue(e, QueueRead::CurrentTrack) && e@
                == d@,
            Route::ReplaceQueue(d) => match queue_outcome(ids) {
                Ok(t) => r matches Step::Submit(e, Command::ReplaceQueue(v)) && e@ == d@ && v@ == t,
                Err(err) => r matches Step::Respond(res) && res.status == err.spec_status() && res.body@ == err.spec_message()
                    && has_cors(&res) && cors_values_only(&res),
            },
            Route::AppendQueue(d) => match queue_outcome(ids) {
                Ok(t) => r matches Step::Submit(e, Command::AppendQueue(v)) && e@ == d@ && v@ == t,
                Err(err) => r matches Step::Respond(res) && res.status == err.spec_status() && res.body@ == err.spec_message()
                    && has_cors(&res) && cors_values_only(&res),
            },
            Route::Transport(d, c) => match spec_parse_command(c@) {
                Some(TransportCommand::Pause) => r matches Step::Submit(e, Command::Pause) && e@ == d@,
                Some(TransportCommand::Play) => r matches Step::Submit(e, Command::Play) && e@ == d@,
                Some(TransportCommand::Next) => r matches Step::Submit(e, Command::Next) && e@ == d@,
                Some(TransportCommand::Prev) => r matches Step::Submit(e, Command::Prev) && e@ == d@,
                None => r matches Step::Respond(res) && res.status == 404
                    && res.body@ == ControlError::UnknownCommand.spec_message() && has_cors(&res) && cors_values_only(&res),
            },
            Route::NotFound => r matches Step::Respond(res) && res.status == 404
                && res.body@ == "Not found."@ && has_cors(&res) && cors_values_only(&res),
        },
{
    match route {
        Route::ListDevices => Step::FetchDevices,
        Route::DeviceTracks(d) => Step::FetchQueue(d.clone(), QueueRead::AllTracks),
        Route::CurrentTrack(d) => Step::FetchQueue(d.clone(), QueueRead::CurrentTrack),
        Route::ReplaceQueue(d) => match queue_command(ids, true) {
            Ok(c) => Step::Submit(d.clone(), c),
            Err(e) => Step::Respond(error_response(e)),
        },
        Route::AppendQueue(d) => match queue_command(ids, false) {
            Ok(c) => Step::Submit(d.clone(), c),
            Err(e) => Step::Respond(error_response(e)),
        },
        Route::Transport(d, c) => match parse_command(c.as_str()) {
            Some(TransportCommand::Pause) => Step::Submit(d.clone(), Command::Pause),
            Some(TransportCommand::Play) => Step::Submit(d.clone(), Command::Play),
            Some(TransportCommand::Next) => Step::Submit(d.clone(), Command::Next),
            Some(TransportCommand::Prev) => Step::Submit(d.clone(), Command::Prev),
            None => Step::Respond(error_response(ControlError::UnknownCommand)),
        },
        Route::NotFound => Step::Respond(Response::new(404, String::from_str("Not found."))),
    }
}

/// The response for a request that failed: the error's status and its
/// message.
pub fn error_response(e: ControlError) -> (r: Response)
    ensures
        r.status == e.spec_status(),
        r.body@ == e.spec_message(),
        has_cors(&r),
        cors_values_only(&r),
{
    Response::new(e.status(), e.message())
}

/// The response once a command has been handed to the session.
pub fn submitted_response() -> (r: Response)
    ensures
        r.status == 200,
        r.body@.len() == 0,
        has_cors(&r),
        cors_values_only(&r),
{
    Response::new(200, String::new())
}

} // verus!
