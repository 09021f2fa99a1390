use vstd::prelude::*;
use vstd::string::*;

use crate::packets::{Command, EasyChatEvent};
use crate::state::A3956State;
use crate::structures::{A3956Info, EasyChatStatus};
use crate::text::{
    decimal, is_decimal_numeral, lemma_decimal_reads_back, numeral_value, push_decimal,
};

verus! {

/// The settings that the A3956 modules report.
#[derive(Debug, Clone, Copy, PartialEq, Eq, Structural)]
pub enum SettingId {
    BatteryLevelLeft,
    BatteryLevelRight,
    FirmwareVersionLeft,
    FirmwareVersionRight,
    SerialNumber,
    EasyChatActive,
}

/// The groups in which settings are shown.
#[derive(Debug, Clone, Copy, PartialEq, Eq, Structural)]
pub enum CategoryId {
    DeviceInformation,
    Miscellaneous,
}

/// A setting's current value as shown to a user.
#[derive(Debug, Clone, PartialEq, Eq)]
pub enum Setting {
    /// Read-only information, with the text to show.
    Information { value: String, translated_value: String },
}

/// Why a setting could not be changed.
#[derive(Debug, Clone, Copy, PartialEq, Eq, Structural)]
pub enum SettingHandlerError {
    ReadOnly,
}

/// `n` as decimal text followed by a percent sign.
pub open spec fn percent_text(n: u8) -> Seq<char> {
    decimal(n as nat).push('%')
}

fn format_percent(n: u8) -> (text: String)
    ensures
        text@ == percent_text(n),
{
    let mut out = String::new();
    push_decimal(&mut out, n);
    proof {
        reveal_strlit("%");
    }
    out.append("%");
    assert(out@ =~= percent_text(n));
    out
}

/// The text that the device information module shows for `setting_id`, if it is one
/// of its settings.
pub open spec fn device_info_text(info: A3956Info, setting_id: SettingId) -> Option<Seq<char>> {
    match setting_id {
        SettingId::BatteryLevelLeft => Some(percent_text(info.battery_left)),
        SettingId::BatteryLevelRight => Some(percent_text(info.battery_right)),
        SettingId::FirmwareVersionLeft => Some(info.firmware_left@),
        SettingId::FirmwareVersionRight => Some(info.firmware_right@),
        SettingId::SerialNumber => Some(info.serial_number@),
        SettingId::EasyChatActive => None,
    }
}

/// Whether `text` is an ordinary decimal numeral for `n` followed by a percent sign.
pub open spec fn reads_as_percent(text: Seq<char>, n: u8) -> bool {
    &&& text.len() > 0
    &&& text.last() == '%'
    &&& is_decimal_numeral(text.drop_last())
    &&& numeral_value(text.drop_last()) == n
}

/// Each device information setting shows its own field: a battery level as its numeral
/// with a percent sign, a firmware version or the serial number as the text itself; the
/// Easy Chat setting is not among them.
pub proof fn lemma_device_info_text(info: A3956Info)
    ensures
        device_info_text(info, SettingId::BatteryLevelLeft) matches Some(t) && reads_as_percent(
            t,
            info.battery_left,
        ),
        device_info_text(info, SettingId::BatteryLevelRight) matches Some(t) && reads_as_percent(
            t,
            info.battery_right,
        ),
        device_info_text(info, SettingId::FirmwareVersionLeft) == Some(info.firmware_left@),
        device_info_text(info, SettingId::FirmwareVersionRight) == Some(info.firmware_right@),
        device_info_text(info, SettingId::SerialNumber) == Some(info.serial_number@),
        device_info_text(info, SettingId::EasyChatActive) is None,
{
    lemma_decimal_reads_back(info.battery_left as nat);
    lemma_decimal_reads_back(info.battery_right as nat);
    assert(percent_text(info.battery_left).drop_last() =~= decimal(info.battery_left as nat));
    assert(percent_text(info.battery_right).drop_last() =~= decimal(info.battery_right as nat));
}

/// Reports the device information: battery levels, firmware versions, serial number.
#[derive(Debug, Clone, Copy, PartialEq, Eq, Structural)]
pub struct DeviceInfoSettingHandler;

impl DeviceInfoSettingHandler {
    /// The settings this module reports, in order.
    pub fn settings(&self) -> (ids: Vec<SettingId>)
        ensures
            ids@ == seq![
                SettingId::BatteryLevelLeft,
                SettingId::BatteryLevelRight,
                SettingId::FirmwareVersionLeft,
                SettingId::FirmwareVersionRight,
                SettingId::SerialNumber,
            ],
    {
        let ids = vec![
            SettingId::BatteryLevelLeft,
            SettingId::BatteryLevelRight,
            SettingId::FirmwareVersionLeft,
            SettingId::FirmwareVersionRight,
            SettingId::SerialNumber,
        ];
        assert(ids@ =~= seq![
            SettingId::BatteryLevelLeft,
            SettingId::BatteryLevelRight,
            SettingId::FirmwareVersionLeft,
            SettingId::FirmwareVersionRight,
            SettingId::SerialNumber,
        ]);
        ids
    }

    /// The value of `setting_id`, shown as it is; `None` for settings of other modules.
    pub fn get(&self, state: &A3956State, setting_id: SettingId) -> (setting: Option<Setting>)
        ensures
            match setting {
                Some(Setting::Information { value, translated_value }) => {
                    &&& device_info_text(state.info, setting_id) == Some(value@)
                    &&& translated_value@ == value@
                },
                None => device_info_text(state.info, setting_id) is None,
            },
            setting is None <==> setting_id == SettingId::EasyChatActive,
            setting matches Some(Setting::Information { value, .. }) ==> {
                &&& setting_id == SettingId::BatteryLevelLeft ==> reads_as_percent(
                    value@,
                    state.info.battery_left,
                )
                &&& setting_id == SettingId::BatteryLevelRight ==> reads_as_percent(
                    value@,
                    state.info.battery_right,
                )
                &&& setting_id == SettingId::FirmwareVersionLeft ==> value@
                    == state.info.firmware_left@
                &&& setting_id == SettingId::FirmwareVersionRight ==> value@
                    == state.info.firmware_right@
                &&& setting_id == SettingId::SerialNumber ==> value@ == state.info.serial_number@
            },
    {
        proof {
            lemma_device_info_text(state.info);
        }
        let info = &state.info;
        let value = match setting_id {
            SettingId::BatteryLevelLeft => format_percent(info.battery_left),
            SettingId::BatteryLevelRight => format_percent(info.battery_right),
            SettingId::FirmwareVersionLeft => info.firmware_left.clone(),
            SettingId::FirmwareVersionRight => info.firmware_right.clone(),
            SettingId::SerialNumber => info.serial_number.clone(),
            SettingId::EasyChatActive => {
                return None;
            },
        };
        let translated_value = value.clone();
        Some(Setting::Information { value, translated_value })
    }

    /// Device information cannot be changed: always refused, and the state is kept.
    pub fn set(&self, state: &mut A3956State, setting_id: SettingId) -> (res: Result<
        (),
        SettingHandlerError,
    >)
        ensures
            res == Err::<(), SettingHandlerError>(SettingHandlerError::ReadOnly),
            *final(state) == *old(state),
    {
        Err(SettingHandlerError::ReadOnly)
    }
}

/// The text shown for an Easy Chat status, and its message catalogue entry.
pub open spec fn easy_chat_text(status: EasyChatStatus) -> (Seq<char>, Seq<char>) {
    if status.is_active {
        ("Active"@, "easy-chat-active-yes"@)
    } else {
        ("Idle"@, "easy-chat-active-no"@)
    }
}

/// An Easy Chat session going on shows as "Active" with the message
/// "easy-chat-active-yes"; none going on shows as "Idle" with "easy-chat-active-no".
pub proof fn lemma_easy_chat_text(status: EasyChatStatus)
    ensures
        status.is_active ==> easy_chat_text(status) == ("Active"@, "easy-chat-active-yes"@),
        !status.is_active ==> easy_chat_text(status) == ("Idle"@, "easy-chat-active-no"@),
{
}

/// Reports whether an Easy Chat session is going on.
#[derive(Debug, Clone, Copy, PartialEq, Eq, Structural)]
pub struct EasyChatStatusSettingHandler;

impl EasyChatStatusSettingHandler {
    /// The settings this module reports.
    pub fn settings(&self) -> (ids: Vec<SettingId>)
        ensures
            ids@ == seq![SettingId::EasyChatActive],
    {
        let ids = vec![SettingId::EasyChatActive];
        assert(ids@ =~= seq![SettingId::EasyChatActive]);
        ids
    }

    /// "Active" or "Idle" for the Easy Chat setting, shown as the text that `translate`
    /// gives for its message ("easy-chat-active-yes" or "easy-chat-active-no");
    /// `None` for settings of other modules.
    pub fn get(
        &self,
        state: &A3956State,
        setting_id: SettingId,
        translate: impl Fn(&str) -> String,
    ) -> (setting: Option<Setting>)
        requires
            forall|message: &str| call_requires(translate, (message,)),
        ensures
            match setting {
                Some(Setting::Information { value, translated_value }) => {
                    &&& setting_id == SettingId::EasyChatActive
                    &&& value@ == easy_chat_text(state.easy_chat_status).0
                    &&& exists|message: &str|
                        message@ == easy_chat_text(state.easy_chat_status).1 && call_ensures(
                            translate,
                            (message,),
                            translated_value,
                        )
                },
                None => setting_id != SettingId::EasyChatActive,
            },
    {
        match setting_id {
            SettingId::EasyChatActive => {
                let (value, message) = if state.easy_chat_status.is_active {
                    (String::from_str("Active"), "easy-chat-active-yes")
                } else {
                    (String::from_str("Idle"), "easy-chat-active-no")
                };
                let translated_value = translate(message);
                Some(Setting::Information { value, translated_value })
            },
            _ => None,
        }
    }

    /// The Easy Chat status cannot be changed: always refused, and the state is kept.
    pub fn set(&self, state: &mut A3956State, setting_id: SettingId) -> (res: Result<
        (),
        SettingHandlerError,
    >)
        ensures
            res == Err::<(), SettingHandlerError>(SettingHandlerError::ReadOnly),
            *final(state) == *old(state),
    {
        Err(SettingHandlerError::ReadOnly)
    }
}

/// A module that answers for settings.
#[derive(Debug, Clone, Copy, PartialEq, Eq, Structural)]
pub enum SettingHandler {
    DeviceInfo(DeviceInfoSettingHandler),
    EasyChatStatus(EasyChatStatusSettingHandler),
}

/// A module that handles packets the device sends on its own.
#[derive(Debug, Clone, Copy, PartialEq, Eq, Structural)]
pub enum PacketHandler {
    /// Records Easy Chat start and stop events.
    EasyChatEvent,
}

/// `handlers` with `handler` answering for `command`: it takes the place of the first
/// handler for that command, or comes last when there is none.
pub open spec fn with_packet_handler(
    handlers: Seq<(Command, PacketHandler)>,
    command: Command,
    handler: PacketHandler,
) -> Seq<(Command, PacketHandler)>
    decreases handlers.len(),
{
    if handlers.len() == 0 {
        seq![(command, handler)]
    } else if handlers[0].0 == command {
        handlers.update(0, (command, handler))
    } else {
        seq![handlers[0]] + with_packet_handler(handlers.drop_first(), command, handler)
    }
}

proof fn lemma_with_packet_handler_at(
    handlers: Seq<(Command, PacketHandler)>,
    command: Command,
    handler: PacketHandler,
    i: int,
)
    requires
        0 <= i <= handlers.len(),
        forall|j: int| 0 <= j < i ==> #[trigger] handlers[j].0 != command,
    ensures
        i < handlers.len() && handlers[i].0 == command ==> with_packet_handler(
            handlers,
            command,
            handler,
        ) == handlers.update(i, (command, handler)),
        i == handlers.len() ==> with_packet_handler(handlers, command, handler) == handlers.push(
            (command, handler),
        ),
    decreases i,
{
    if i > 0 {
        let tail = handlers.drop_first();
        assert forall|j: int| 0 <= j < i - 1 implies #[trigger] tail[j].0 != command by {
            assert(tail[j] == handlers[j + 1]);
        }
        lemma_with_packet_handler_at(tail, command, handler, i - 1);
        assert(handlers[0].0 != command);
        if i < handlers.len() && handlers[i].0 == command {
            assert(seq![handlers[0]] + tail.update(i - 1, (command, handler)) =~= handlers.update(
                i,
                (command, handler),
            ));
        }
        if i == handlers.len() {
            assert(seq![handlers[0]] + tail.push((command, handler)) =~= handlers.push(
                (command, handler),
            ));
        }
    } else if handlers.len() == 0 {
        assert(seq![(command, handler)] =~= handlers.push((command, handler)));
    }
}

fn same_command(a: &Command, b: &Command) -> (same: bool)
    ensures
        same == (*a == *b),
{
    let same = a.0[0] == b.0[0] && a.0[1] == b.0[1];
    if same {
        assert(a.0@ =~= b.0@);
        assert(a.0 =~= b.0);
    } else {
        assert(a.0@ != b.0@);
    }
    same
}

/// The modules of a device: the setting handlers with their categories, in the order
/// they were added, and the packet handlers by command.
pub struct ModuleCollection {
    pub setting_handlers: Vec<(CategoryId, SettingHandler)>,
    pub packet_handlers: Vec<(Command, PacketHandler)>,
}

impl ModuleCollection {
    /// A collection without modules.
    pub fn new() -> (modules: Self)
        ensures
            modules.setting_handlers@ == Seq::<(CategoryId, SettingHandler)>::empty(),
            modules.packet_handlers@ == Seq::<(Command, PacketHandler)>::empty(),
    {
        ModuleCollection { setting_handlers: Vec::new(), packet_handlers: Vec::new() }
    }

    /// Makes `handler` answer for packets with `command`, in place of any handler that
    /// did before.
    pub fn set_packet_handler(&mut self, command: Command, handler: PacketHandler)
        ensures
            final(self).packet_handlers@ == with_packet_handler(
                old(self).packet_handlers@,
                command,
                handler,
            ),
            final(self).setting_handlers@ == old(self).setting_handlers@,
    {
        let n = self.packet_handlers.len();
        let mut i: usize = 0;
        while i < n
            invariant
                n == self.packet_handlers@.len(),
                i <= n,
                self.packet_handlers@ == old(self).packet_handlers@,
                self.setting_handlers@ == old(self).setting_handlers@,
                forall|j: int| 0 <= j < i ==> #[trigger] self.packet_handlers@[j].0 != command,
            decreases n - i,
        {
            if same_command(&self.packet_handlers[i].0, &command) {
                proof {
                    lemma_with_packet_handler_at(self.packet_handlers@, command, handler, i as int);
                }
                self.packet_handlers.set(i, (command, handler));
                return;
            }
            i = i + 1;
        }
        proof {
            lemma_with_packet_handler_at(self.packet_handlers@, command, handler, i as int);
        }
        self.packet_handlers.push((command, handler));
    }

    /// Adds the device information module under the device information category.
    pub fn add_a3956_device_info(&mut self)
        ensures
            final(self).setting_handlers@ == old(self).setting_handlers@.push(
                (
                    CategoryId::DeviceInformation,
                    SettingHandler::DeviceInfo(DeviceInfoSettingHandler),
                ),
            ),
            final(self).packet_handlers@ == old(self).packet_handlers@,
    {
        self.setting_handlers.push(
            (CategoryId::DeviceInformation, SettingHandler::DeviceInfo(DeviceInfoSettingHandler)),
        );
    }

    /// Adds the Easy Chat status module under the miscellaneous category, and makes it
    /// answer for Easy Chat event packets (command 0x3103).
    pub fn add_a3956_easy_chat_status(&mut self)
        ensures
            final(self).setting_handlers@ == old(self).setting_handlers@.push(
                (
                    CategoryId::Miscellaneous,
                    SettingHandler::EasyChatStatus(EasyChatStatusSettingHandler),
                ),
            ),
            exists|c: Command|
                c.0@ == seq![0x31u8, 0x03u8] && final(self).packet_handlers@ == with_packet_handler(
                    old(self).packet_handlers@,
                    c,
                    PacketHandler::EasyChatEvent,
                ),
    {
        self.setting_handlers.push(
            (
                CategoryId::Miscellaneous,
                SettingHandler::EasyChatStatus(EasyChatStatusSettingHandler),
            ),
        );
        let command = EasyChatEvent::command();
        self.set_packet_handler(command, PacketHandler::EasyChatEvent);
    }
}

/// Assembles the modules of a device.
pub struct SoundcoreDeviceBuilder {
    pub module_collection: ModuleCollection,
}

impl SoundcoreDeviceBuilder {
    /// A builder without modules.
    pub fn new() -> (builder: Self)
        ensures
            builder.module_collection.setting_handlers@ == Seq::<
                (CategoryId, SettingHandler),
            >::empty(),
            builder.module_collection.packet_handlers@ == Seq::<(Command, PacketHandler)>::empty(),
    {
        SoundcoreDeviceBuilder { module_collection: ModuleCollection::new() }
    }

    /// Adds the A3956 Easy Chat status module.
    pub fn a3956_easy_chat_status(&mut self)
        ensures
            final(self).module_collection.setting_handlers@
                == old(self).module_collection.setting_handlers@.push(
                (
                    CategoryId::Miscellaneous,
                    SettingHandler::EasyChatStatus(EasyChatStatusSettingHandler),
                ),
            ),
            exists|c: Command|
                c.0@ == seq![0x31u8, 0x03u8] && final(self).module_collection.packet_handlers@
                    == with_packet_handler(
                    old(self).module_collection.packet_handlers@,
                    c,
                    PacketHandler::EasyChatEvent,
                ),
    {
        self.module_collection.add_a3956_easy_chat_status();
    }

    /// Adds the A3956 device information module.
    pub fn a3956_device_info(&mut self)
        ensures
            final(self).module_collection.setting_handlers@
                == old(self).module_collection.setting_handlers@.push(
                (
                    CategoryId::DeviceInformation,
                    SettingHandler::DeviceInfo(DeviceInfoSettingHandler),
                ),
            ),
            final(self).module_collection.packet_handlers@
                == old(self).module_collection.packet_handlers@,
    {
        self.module_collection.add_a3956_device_info();
    }
}

} // verus!
