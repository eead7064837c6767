//! The state of a Discord rich-presence display: the activity to show and
//! the client it is shown through.
use vstd::prelude::*;

use discord_rpc_client::Client;

verus! {

/// `discord_rpc_client::Client`, a connection to the Discord client.
#[verifier::external_type_specification]
#[verifier::external_body]
pub struct ExClient(Client);

/// The activity shown.
pub(crate) struct ActivityData {
    state: String,
    details: String,
    start_timestamp: u64,
    end_timestamp: u64,
    large_img_txt: String,
    small_img_txt: String,
    party_id: String,
    party_size: u8,
    party_max: u8,
    join_secret: String,
}

/// What a rich-presence state holds.
pub struct RichPresenceView {
    pub state: Seq<char>,
    pub details: Seq<char>,
    pub start_timestamp: u64,
    pub end_timestamp: u64,
    pub large_img_txt: Seq<char>,
    pub small_img_txt: Seq<char>,
    pub party_id: Seq<char>,
    pub party_size: u8,
    pub party_max: u8,
    pub join_secret: Seq<char>,
    pub client_id: u64,
    pub connected: bool,
}

/// A rich-presence state: an activity, the application's client id, and the
/// client connection once there is one.
pub struct RichPresence {
    activity: ActivityData,
    client_id: u64,
    drpc: Option<Client>,
}

impl View for RichPresence {
    type V = RichPresenceView;

    closed spec fn view(&self) -> RichPresenceView {
        RichPresenceView {
            state: self.activity.state@,
            details: self.activity.details@,
            start_timestamp: self.activity.start_timestamp,
            end_timestamp: self.activity.end_timestamp,
            large_img_txt: self.activity.large_img_txt@,
            small_img_txt: self.activity.small_img_txt@,
            party_id: self.activity.party_id@,
            party_size: self.activity.party_size,
            party_max: self.activity.party_max,
            join_secret: self.activity.join_secret@,
            client_id: self.client_id,
            connected: self.drpc is Some,
        }
    }
}

impl RichPresence {
    /// A state with an empty activity (empty texts, zero timestamps and party
    /// sizes) for this application, not connected.
    pub fn new(client_id: u64) -> (r: RichPresence)
        ensures
            r@ == (RichPresenceView {
                state: Seq::<char>::empty(),
                details: Seq::<char>::empty(),
                start_timestamp: 0,
                end_timestamp: 0,
                large_img_txt: Seq::<char>::empty(),
                small_img_txt: Seq::<char>::empty(),
                party_id: Seq::<char>::empty(),
                party_size: 0,
                party_max: 0,
                join_secret: Seq::<char>::empty(),
                client_id,
                connected: false,
            }),
    {
        RichPresence {
            activity: ActivityData {
                state: String::new(),
                details: String::new(),
                start_timestamp: 0,
                end_timestamp: 0,
                large_img_txt: String::new(),
                small_img_txt: String::new(),
                party_id: String::new(),
                party_size: 0,
                party_max: 0,
                join_secret: String::new(),
            },
            client_id,
            drpc: None,
        }
    }

    /// Sets the activity's state line.
    pub fn set_state(&mut self, state: &str)
        ensures
            final(self)@ == (RichPresenceView { state: state@, ..old(self)@ }),
    {
        self.activity.state = state.to_owned();
    }

    /// Sets the application's client id.
    pub fn set_client_id(&mut self, client_id: u64)
        ensures
            final(self)@ == (RichPresenceView { client_id, ..old(self)@ }),
    {
        self.client_id = client_id;
    }

    /// One step of the display loop, which as yet does nothing, connected or
    /// not.
    pub fn tick(&mut self)
        ensures
            final(self)@ == old(self)@,
    {
        match &self.drpc {
            Some(_) => {},
            None => {},
        }
    }
}

} // verus!
