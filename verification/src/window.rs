//! A desktop window of the demo shell: the role it plays, the state of its
//! broker connection, and what it does with the connection's events.
use vstd::prelude::*;

verus! {

/// The first window hosts the broker; the windows it launches join it at the
/// address they find in their environment.
pub enum WindowRole {
    Primary,
    Child { broker_address: String },
}

impl WindowRole {
    pub fn is_primary(&self) -> (primary: bool)
        ensures
            primary <==> *self is Primary,
    {
        match self {
            WindowRole::Primary => true,
            WindowRole::Child { .. } => false,
        }
    }

    /// The role of a window whose environment holds `broker_address` under
    /// the broker address variable (`None` when it is unset).
    pub fn from_broker_address(broker_address: Option<String>) -> (role: WindowRole)
        ensures
            broker_address is None <==> role is Primary,
            broker_address matches Some(address) ==> role == (WindowRole::Child { broker_address: address }),
    {
        match broker_address {
            Some(address) => WindowRole::Child { broker_address: address },
            None => WindowRole::Primary,
        }
    }
}

/// The window's view of its broker connection.
pub struct BrokerConnectionStatus {
    pub connected: bool,
    pub address: String,
    pub client_id: String,
}

impl Default for BrokerConnectionStatus {
    fn default() -> (status: Self)
        ensures
            !status.connected,
            status.address@ == Seq::<char>::empty(),
            status.client_id@ == Seq::<char>::empty(),
    {
        BrokerConnectionStatus { connected: false, address: String::new(), client_id: String::new() }
    }
}

/// What a widget is told of its window when it is drawn.
pub struct WidgetContext {
    pub is_connected: bool,
}

impl WidgetContext {
    /// The context for a window whose connection is in `status`.
    pub fn from_status(status: &BrokerConnectionStatus) -> (context: WidgetContext)
        ensures
            context.is_connected == status.connected,
    {
        WidgetContext { is_connected: status.connected }
    }
}

impl Default for WidgetContext {
    fn default() -> (context: Self)
        ensures
            !context.is_connected,
    {
        WidgetContext { is_connected: false }
    }
}

/// What the window's broker connection reports.
pub enum RuntimeEvent {
    Connected { client_id: String, address: String },
    Disconnected,
    Failed { reason: String },
    Inbound { topic: String, payload: String, bytes: Option<Vec<u8>> },
}

/// A message that arrived on a topic the window subscribed to.
pub struct TopicEvent {
    pub topic: String,
    pub payload: String,
    pub bytes: Option<Vec<u8>>,
}

/// What the window does after its connection reported an event.
pub struct RuntimeReaction {
    /// The connection state to tell the widgets, when it changed.
    pub connection: Option<bool>,
    /// The text of an error notification to show.
    pub failure: Option<String>,
    /// Whether the window closes.
    pub exit: bool,
    /// The message to hand to the widgets.
    pub inbound: Option<TopicEvent>,
}

pub open spec fn failure_text(reason: Seq<char>) -> Seq<char> {
    "Broker runtime failed: "@ + reason
}

/// Updates the connection state after `event`: a connection records the
/// client id and address; a lost or failed connection is recorded, and a
/// child window then closes; a failure is shown; an inbound message is
/// handed on.
pub fn apply_runtime_event(status: &mut BrokerConnectionStatus, role: &WindowRole, event: RuntimeEvent) -> (reaction:
    RuntimeReaction)
    ensures
        match event {
            RuntimeEvent::Connected { client_id, address } => {
                &&& final(status).connected
                &&& final(status).client_id == client_id
                &&& final(status).address == address
                &&& reaction.connection == Some(true)
                &&& reaction.failure is None && !reaction.exit && reaction.inbound is None
            },
            RuntimeEvent::Disconnected => {
                &&& !final(status).connected
                &&& final(status).client_id == old(status).client_id
                &&& final(status).address == old(status).address
                &&& reaction.connection == Some(false)
                &&& reaction.failure is None && reaction.inbound is None
                &&& reaction.exit == !(*role is Primary)
            },
            RuntimeEvent::Failed { reason } => {
                &&& !final(status).connected
                &&& final(status).client_id == old(status).client_id
                &&& final(status).address == old(status).address
                &&& reaction.connection is None && reaction.inbound is None
                &&& reaction.failure matches Some(text) && text@ == failure_text(reason@)
                &&& reaction.exit == !(*role is Primary)
            },
            RuntimeEvent::Inbound { topic, payload, bytes } => {
                &&& *final(status) == *old(status)
                &&& reaction.connection is None && reaction.failure is None && !reaction.exit
                &&& reaction.inbound == Some(TopicEvent { topic, payload, bytes })
            },
        },
{
    match event {
        RuntimeEvent::Connected { client_id, address } => {
            status.connected = true;
            status.address = address;
            status.client_id = client_id;
            RuntimeReaction { connection: Some(true), failure: None, exit: false, inbound: None }
        },
        RuntimeEvent::Disconnected => {
            status.connected = false;
            RuntimeReaction { connection: Some(false), failure: None, exit: !role.is_primary(), inbound: None }
        },
        RuntimeEvent::Failed { reason } => {
            status.connected = false;
            let mut text = String::from_str("Broker runtime failed: ");
            text.append(reason.as_str());
            RuntimeReaction { connection: None, failure: Some(text), exit: !role.is_primary(), inbound: None }
        },
        RuntimeEvent::Inbound { topic, payload, bytes } => RuntimeReaction {
            connection: None,
            failure: None,
            exit: false,
            inbound: Some(TopicEvent { topic, payload, bytes }),
        },
    }
}

/// The decimal digit `digit` stands for.
pub open spec fn digit_char(digit: nat) -> char {
    if digit == 0 {
        '0'
    } else if digit == 1 {
        '1'
    } else if digit == 2 {
        '2'
    } else if digit == 3 {
        '3'
    } else if digit == 4 {
        '4'
    } else if digit == 5 {
        '5'
    } else if digit == 6 {
        '6'
    } else if digit == 7 {
        '7'
    } else if digit == 8 {
        '8'
    } else {
        '9'
    }
}

/// `value` written in decimal, without leading zeros.
pub open spec fn decimal(value: nat) -> Seq<char>
    decreases value,
{
    if value < 10 {
        seq![digit_char(value)]
    } else {
        decimal(value / 10).push(digit_char(value % 10))
    }
}

/// The text of one decimal digit.
fn digit_text(digit: u32) -> (text: &'static str)
    requires
        digit < 10,
    ensures
        text@ == seq![digit_char(digit as nat)],
{
    proof {
        reveal_strlit("0");
        reveal_strlit("1");
        reveal_strlit("2");
        reveal_strlit("3");
        reveal_strlit("4");
        reveal_strlit("5");
        reveal_strlit("6");
        reveal_strlit("7");
        reveal_strlit("8");
        reveal_strlit("9");
    }
    if digit == 0 {
        "0"
    } else if digit == 1 {
        "1"
    } else if digit == 2 {
        "2"
    } else if digit == 3 {
        "3"
    } else if digit == 4 {
        "4"
    } else if digit == 5 {
        "5"
    } else if digit == 6 {
        "6"
    } else if digit == 7 {
        "7"
    } else if digit == 8 {
        "8"
    } else {
        "9"
    }
}

/// `value` written in decimal.
pub fn decimal_text(value: u32) -> (text: String)
    ensures
        text@ == decimal(value as nat),
    decreases value,
{
    if value < 10 {
        String::from_str(digit_text(value))
    } else {
        let mut text = decimal_text(value / 10);
        text.append(digit_text(value % 10));
        text
    }
}

pub open spec fn window_name(number: nat) -> Seq<char> {
    "window-"@ + decimal(number)
}

/// Counts one more launched window and names it: `window-1`, `window-2`, ...
pub fn next_window_name(counter: &mut u32) -> (name: String)
    requires
        *old(counter) < u32::MAX,
    ensures
        *final(counter) == *old(counter) + 1,
        name@ == window_name(*final(counter) as nat),
{
    *counter = *counter + 1;
    let mut name = String::from_str("window-");
    let number = decimal_text(*counter);
    name.append(number.as_str());
    name
}

} // verus!
