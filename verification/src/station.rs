//! Joining the WiFi network: what the station is configured with, and the steps up to a working
//! network interface.
use vstd::prelude::*;

verus! {

/// The longest network name, in bytes.
pub const MAX_SSID_LEN: usize = 32;

/// The longest password, in bytes.
pub const MAX_PASSWORD_LEN: usize = 64;

/// How the station proves itself to the network.
#[derive(Clone, Copy, Debug, PartialEq, Eq, Structural)]
pub enum AuthMethod {
    Wpa2Personal,
}

/// What the station is configured with. A network that is to be looked for by an address or on a
/// channel has them given.
#[derive(Debug, PartialEq, Eq)]
pub struct StationConfig {
    pub ssid: String,
    pub bssid: Option<[u8; 6]>,
    pub auth_method: AuthMethod,
    pub password: String,
    pub channel: Option<u8>,
}

/// Whether a text is at most `max` bytes long.
pub open spec fn fits(s: Seq<char>, max: usize) -> bool {
    vstd::utf8::encode_utf8(s).len() <= max
}

/// The name field of `embedded_svc::wifi::ClientConfiguration`, filled from `ssid` by the field
/// type's conversion from `&str`. That conversion fails if and only if the text is longer than the
/// field's 32 bytes, and otherwise the field holds the text.
#[verifier::external_body]
fn ssid_field(ssid: &str) -> (field: Option<String>)
    ensures
        field is Some <==> fits(ssid@, MAX_SSID_LEN),
        field is Some ==> field->0@ == ssid@,
{
    let client = embedded_svc::wifi::ClientConfiguration {
        ssid: ssid.try_into().ok()?,
        ..Default::default()
    };
    Some(client.ssid.as_str().to_string())
}

/// The password field of `embedded_svc::wifi::ClientConfiguration`, filled from `password` by the
/// field type's conversion from `&str`. That conversion fails if and only if the text is longer
/// than the field's 64 bytes, and otherwise the field holds the text.
#[verifier::external_body]
fn password_field(password: &str) -> (field: Option<String>)
    ensures
        field is Some <==> fits(password@, MAX_PASSWORD_LEN),
        field is Some ==> field->0@ == password@,
{
    let client = embedded_svc::wifi::ClientConfiguration {
        password: password.try_into().ok()?,
        ..Default::default()
    };
    Some(client.password.as_str().to_string())
}

/// Tells whether a network name and a password are short enough for a station.
pub fn credentials_fit(ssid: &str, password: &str) -> (short: bool)
    ensures
        short == (fits(ssid@, MAX_SSID_LEN) && fits(password@, MAX_PASSWORD_LEN)),
{
    ssid_field(ssid).is_some() && password_field(password).is_some()
}

/// The configuration for a network with a name and a password, on whatever channel and at whatever
/// address it is found.
pub fn station_config(ssid: &str, password: &str) -> (config: StationConfig)
    requires
        fits(ssid@, MAX_SSID_LEN),
        fits(password@, MAX_PASSWORD_LEN),
    ensures
        config.ssid@ == ssid@,
        config.password@ == password@,
        config.auth_method == AuthMethod::Wpa2Personal,
        config.bssid is None,
        config.channel is None,
{
    StationConfig {
        ssid: ssid_field(ssid).unwrap(),
        bssid: None,
        auth_method: AuthMethod::Wpa2Personal,
        password: password_field(password).unwrap(),
        channel: None,
    }
}

/// The steps of joining a network, in their order.
#[derive(Clone, Copy, Debug, PartialEq, Eq, Structural)]
pub enum Step {
    /// Hands the configuration to the driver.
    Configure,
    /// Starts the driver.
    Start,
    /// Connects to the network.
    Connect,
    /// Waits for the network interface.
    AwaitInterface,
}

/// Where joining stands after a step.
#[derive(Debug, PartialEq, Eq)]
pub enum Progress<E> {
    /// This step comes next.
    Next(Step),
    /// The network interface is up.
    Up,
    /// A step failed.
    Failed(E),
}

impl Step {
    /// The step behind this one, if there is one.
    pub open spec fn following(self) -> Option<Step> {
        match self {
            Step::Configure => Some(Step::Start),
            Step::Start => Some(Step::Connect),
            Step::Connect => Some(Step::AwaitInterface),
            Step::AwaitInterface => None,
        }
    }

    /// Where joining stands after this step, by its outcome.
    pub open spec fn progress<E>(self, outcome: Result<(), E>) -> Progress<E> {
        match outcome {
            Err(error) => Progress::Failed(error),
            Ok(()) => match self.following() {
                Some(step) => Progress::Next(step),
                None => Progress::Up,
            },
        }
    }
}

/// Decides what comes after a step of joining, which [`Step::Configure`] starts: the next step, or
/// the end, with the error of the step where it failed.
pub fn connect_wifi<E>(step: Step, outcome: Result<(), E>) -> (progress: Progress<E>)
    ensures
        progress == step.progress(outcome),
{
    match outcome {
        Err(error) => Progress::Failed(error),
        Ok(()) => match step {
            Step::Configure => Progress::Next(Step::Start),
            Step::Start => Progress::Next(Step::Connect),
            Step::Connect => Progress::Next(Step::AwaitInterface),
            Step::AwaitInterface => Progress::Up,
        },
    }
}

/// Where joining stands when the steps have gone as `outcomes` says, from the first step on. What
/// would have come after the end is not looked at.
pub open spec fn joined<E>(outcomes: Seq<Result<(), E>>) -> Progress<E>
    decreases outcomes.len(),
{
    if outcomes.len() == 0 {
        Progress::Next(Step::Configure)
    } else {
        match joined(outcomes.drop_last()) {
            Progress::Next(step) => step.progress(outcomes.last()),
            end => end,
        }
    }
}

/// The number of steps that are done before `step`.
pub open spec fn place(step: Step) -> nat {
    match step {
        Step::Configure => 0,
        Step::Start => 1,
        Step::Connect => 2,
        Step::AwaitInterface => 3,
    }
}

/// The network is joined if and only if all four steps succeed; the first step that fails ends the
/// attempt with its error; and until then the steps are taken one after the other.
pub proof fn joined_after_all_steps<E>(outcomes: Seq<Result<(), E>>)
    ensures
        joined(outcomes) is Up <==> outcomes.len() >= 4 && forall|i: int|
            0 <= i < 4 ==> #[trigger] outcomes[i] is Ok,
        joined(outcomes) matches Progress::Failed(error) ==> exists|i: int|
            {
                &&& 0 <= i < outcomes.len() && i < 4
                &&& #[trigger] outcomes[i] == Err::<(), E>(error)
                &&& forall|j: int| 0 <= j < i ==> #[trigger] outcomes[j] is Ok
            },
        joined(outcomes) matches Progress::Next(step) ==> {
            &&& outcomes.len() == place(step)
            &&& forall|i: int| 0 <= i < outcomes.len() ==> #[trigger] outcomes[i] is Ok
        },
    decreases outcomes.len(),
{
    if outcomes.len() > 0 {
        let earlier = outcomes.drop_last();
        joined_after_all_steps(earlier);
        assert forall|i: int| 0 <= i < earlier.len() implies #[trigger] earlier[i] == outcomes[i] by {}
        match joined(earlier) {
            Progress::Next(step) => {
                assert forall|i: int| 0 <= i < earlier.len() implies #[trigger] outcomes[i] is Ok by {
                    assert(earlier[i] is Ok);
                }
                match outcomes.last() {
                    Err(error) => {
                        assert(outcomes[outcomes.len() - 1] == Err::<(), E>(error));
                    },
                    Ok(()) => {},
                }
            },
            Progress::Up => {
                assert forall|i: int| 0 <= i < 4 implies #[trigger] outcomes[i] is Ok by {
                    assert(earlier[i] is Ok);
                }
            },
            Progress::Failed(error) => {
                let k = choose|i: int|
                    {
                        &&& 0 <= i < earlier.len() && i < 4
                        &&& #[trigger] earlier[i] == Err::<(), E>(error)
                        &&& forall|j: int| 0 <= j < i ==> #[trigger] earlier[j] is Ok
                    };
                assert(outcomes[k] == Err::<(), E>(error));
                assert forall|j: int| 0 <= j < k implies #[trigger] outcomes[j] is Ok by {
                    assert(earlier[j] is Ok);
                }
            },
        }
    }
}

/// A text fits by its bytes in UTF-8: the empty text always does, and a character more takes one
/// byte if it is ASCII, and two, three or four up to the next limits of the encoding.
pub proof fn bytes_decide_what_fits(first: char, rest: Seq<char>, max: usize)
    ensures
        fits(seq![], max),
        ({
            let width: int = if first as u32 <= 0x7f {
                1
            } else if first as u32 <= 0x7ff {
                2
            } else if first as u32 <= 0xffff {
                3
            } else {
                4
            };
            fits(seq![first] + rest, max) <==> width <= max && fits(rest, (max - width) as usize)
        }),
{
    let s = seq![first] + rest;
    assert(s.drop_first() == rest);
    assert(s[0] == first);
    assert(vstd::utf8::encode_utf8(s) == vstd::utf8::encode_scalar(first as u32)
        + vstd::utf8::encode_utf8(rest));
}

/// After each step that succeeds comes the one that the order says, and a step that fails ends the
/// attempt with that step's own error.
pub proof fn steps_come_in_order<E>(step: Step, error: E)
    ensures
        step.progress(Err::<(), E>(error)) == Progress::Failed(error),
        Step::Configure.progress(Ok::<(), E>(())) == Progress::Next::<E>(Step::Start),
        Step::Start.progress(Ok::<(), E>(())) == Progress::Next::<E>(Step::Connect),
        Step::Connect.progress(Ok::<(), E>(())) == Progress::Next::<E>(Step::AwaitInterface),
        Step::AwaitInterface.progress(Ok::<(), E>(())) == Progress::Up::<E>,
{
}

} // verus!
