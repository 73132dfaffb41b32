//! Checks of the IPC protocol: framing, request and event numbers, event
//! subscriptions, and the JSON shape of the reply records.

use super::{check, infos, reg, reg_fn, verdict};
use crate::harness::suite::{Category, Harness, Priority, TestFn, TestInfo, TestStatus};
use crate::ipc::events::{json_string_array, parse_subscribe_payload, subscriptions_of, SubscriptionType};
use crate::ipc::protocol::{
    decode_header, encode_message, lemma_encode_decode_roundtrip, EventType, MessageType, HEADER_SIZE, MAGIC,
};
use crate::text::to_string;
use vstd::prelude::*;

verus! {

/// The IPC checks that read a library value back from its JSON form. The
/// JSON encoding of library types stands outside the library, so these
/// functions are handed in by whoever registers the checks.
pub struct IpcJsonChecks {
    /// A version record carries its version numbers and strings.
    pub version_info_fields: TestFn,
    /// A version record has exactly the expected JSON form.
    pub version_info_json_format: TestFn,
    /// A workspace record carries its fields.
    pub workspace_info_fields: TestFn,
    /// A tree node's kind is written as `type`.
    pub tree_node_type_rename: TestFn,
    /// Nested tree nodes are written nested.
    pub tree_node_nested: TestFn,
    /// A command result has the expected JSON form.
    pub command_result_format: TestFn,
    /// An output record carries its fields.
    pub output_info_fields: TestFn,
    /// Absent optional fields of a tree node are left out.
    pub tree_node_optional_skip: TestFn,
}

/// Whether `v` holds `t`.
pub fn has_subscription(v: &Vec<SubscriptionType>, t: SubscriptionType) -> (b: bool)
    ensures
        b == v@.contains(t),
{
    let mut i: usize = 0;
    while i < v.len()
        invariant
            i <= v.len(),
            forall|j: int| 0 <= j < i ==> v@[j] != t,
        decreases v.len() - i,
    {
        if v[i] == t {
            return true;
        }
        i = i + 1;
    }
    false
}

/// The magic string is `i3-ipc`.
pub fn test_protocol_magic_bytes() -> (s: TestStatus)
    ensures
        s@ is Pass,
{
    let ok = MAGIC[0] == 105u8 && MAGIC[1] == 51u8 && MAGIC[2] == 45u8 && MAGIC[3] == 105u8 && MAGIC[4] == 112u8
        && MAGIC[5] == 99u8;
    verdict(ok, "expected b\"i3-ipc\"")
}

/// A header is 14 bytes: the magic, the length and the type.
pub fn test_protocol_header_size() -> (s: TestStatus)
    ensures
        s@ is Pass,
{
    verdict(HEADER_SIZE == 14, "expected 14")
}

/// A `subscribe` payload naming `workspace` and `window` subscribes to both.
pub fn test_subscribe_event_types() -> (s: TestStatus)
    ensures
        s@ is Pass <==> (json_string_array("[\"workspace\", \"window\"]"@) matches Some(names)
            && subscriptions_of(names).contains(SubscriptionType::Workspace)
            && subscriptions_of(names).contains(SubscriptionType::Window)),
{
    match parse_subscribe_payload("[\"workspace\", \"window\"]") {
        Ok(types) => {
            let has_workspace = has_subscription(&types, SubscriptionType::Workspace);
            let has_window = has_subscription(&types, SubscriptionType::Window);
            verdict(has_workspace && has_window, "missing event types")
        },
        Err(_) => TestStatus::Fail(to_string("parse error")),
    }
}

/// A framed message reads back with its type and payload length.
pub fn test_encode_decode_roundtrip() -> (s: TestStatus)
    ensures
        s@ is Pass,
{
    let payload: [u8; 5] = [104u8, 101u8, 108u8, 108u8, 111u8];
    let msg = encode_message(7, payload.as_slice());
    proof {
        lemma_encode_decode_roundtrip(7, payload@);
    }
    if msg.len() < 14 {
        return TestStatus::Fail(to_string("message too short"));
    }
    let header: [u8; 14] = [
        msg[0], msg[1], msg[2], msg[3], msg[4], msg[5], msg[6],
        msg[7], msg[8], msg[9], msg[10], msg[11], msg[12], msg[13],
    ];
    assert(header@ =~= msg@.subrange(0, 14));
    match decode_header(&header) {
        Ok((payload_len, msg_type)) => verdict(msg_type == 7 && payload_len == 5, "wrong type or length"),
        Err(_) => TestStatus::Fail(to_string("decode error")),
    }
}

/// `RunCommand` is request number 0.
pub fn test_message_type_run_command() -> (s: TestStatus)
    ensures
        s@ is Pass,
{
    verdict(MessageType::RunCommand.code() == 0, "expected 0")
}

/// `GetWorkspaces` is request number 1.
pub fn test_message_type_get_workspaces() -> (s: TestStatus)
    ensures
        s@ is Pass,
{
    verdict(MessageType::GetWorkspaces.code() == 1, "expected 1")
}

/// `Subscribe` is request number 2.
pub fn test_message_type_subscribe() -> (s: TestStatus)
    ensures
        s@ is Pass,
{
    verdict(MessageType::Subscribe.code() == 2, "expected 2")
}

/// `GetOutputs` is request number 3.
pub fn test_message_type_get_outputs() -> (s: TestStatus)
    ensures
        s@ is Pass,
{
    verdict(MessageType::GetOutputs.code() == 3, "expected 3")
}

/// `GetTree` is request number 4.
pub fn test_message_type_get_tree() -> (s: TestStatus)
    ensures
        s@ is Pass,
{
    verdict(MessageType::GetTree.code() == 4, "expected 4")
}

/// `GetMarks` is request number 5.
pub fn test_message_type_get_marks() -> (s: TestStatus)
    ensures
        s@ is Pass,
{
    verdict(MessageType::GetMarks.code() == 5, "expected 5")
}

/// `GetBarConfig` is request number 6.
pub fn test_message_type_get_bar_config() -> (s: TestStatus)
    ensures
        s@ is Pass,
{
    verdict(MessageType::GetBarConfig.code() == 6, "expected 6")
}

/// `GetVersion` is request number 7.
pub fn test_message_type_get_version() -> (s: TestStatus)
    ensures
        s@ is Pass,
{
    verdict(MessageType::GetVersion.code() == 7, "expected 7")
}

/// `GetBindingModes` is request number 8.
pub fn test_message_type_get_binding_modes() -> (s: TestStatus)
    ensures
        s@ is Pass,
{
    verdict(MessageType::GetBindingModes.code() == 8, "expected 8")
}

/// `GetConfig` is request number 9.
pub fn test_message_type_get_config() -> (s: TestStatus)
    ensures
        s@ is Pass,
{
    verdict(MessageType::GetConfig.code() == 9, "expected 9")
}

/// `GetInputs` is request number 100.
pub fn test_message_type_get_inputs() -> (s: TestStatus)
    ensures
        s@ is Pass,
{
    verdict(MessageType::GetInputs.code() == 100, "expected 100")
}

/// `GetSeats` is request number 101.
pub fn test_message_type_get_seats() -> (s: TestStatus)
    ensures
        s@ is Pass,
{
    verdict(MessageType::GetSeats.code() == 101, "expected 101")
}

/// `SendTick` is request number 10.
pub fn test_message_type_send_tick() -> (s: TestStatus)
    ensures
        s@ is Pass,
{
    verdict(MessageType::SendTick.code() == 10, "expected 10")
}

/// `Sync` is request number 11.
pub fn test_message_type_sync() -> (s: TestStatus)
    ensures
        s@ is Pass,
{
    verdict(MessageType::Sync.code() == 11, "expected 11")
}

/// `Workspace` is event number `0x80000000`.
pub fn test_event_type_workspace() -> (s: TestStatus)
    ensures
        s@ is Pass,
{
    verdict(EventType::Workspace.code() == 0x80000000, "expected 0x80000000")
}

/// `Window` is event number `0x80000003`.
pub fn test_event_type_window() -> (s: TestStatus)
    ensures
        s@ is Pass,
{
    verdict(EventType::Window.code() == 0x80000003, "expected 0x80000003")
}

/// `Output` is event number `0x80000001`.
pub fn test_event_type_output() -> (s: TestStatus)
    ensures
        s@ is Pass,
{
    verdict(EventType::Output.code() == 0x80000001, "expected 0x80000001")
}

/// `Mode` is event number `0x80000002`.
pub fn test_event_type_mode() -> (s: TestStatus)
    ensures
        s@ is Pass,
{
    verdict(EventType::Mode.code() == 0x80000002, "expected 0x80000002")
}

/// `Binding` is event number `0x80000005`.
pub fn test_event_type_binding() -> (s: TestStatus)
    ensures
        s@ is Pass,
{
    verdict(EventType::Binding.code() == 0x80000005, "expected 0x80000005")
}

/// `Shutdown` is event number `0x80000006`.
pub fn test_event_type_shutdown() -> (s: TestStatus)
    ensures
        s@ is Pass,
{
    verdict(EventType::Shutdown.code() == 0x80000006, "expected 0x80000006")
}

/// `Tick` is event number `0x80000007`.
pub fn test_event_type_tick() -> (s: TestStatus)
    ensures
        s@ is Pass,
{
    verdict(EventType::Tick.code() == 0x80000007, "expected 0x80000007")
}

/// `BarConfigUpdate` is event number `0x80000004`.
pub fn test_event_type_bar_config_update() -> (s: TestStatus)
    ensures
        s@ is Pass,
{
    verdict(EventType::BarConfigUpdate.code() == 0x80000004, "expected 0x80000004")
}

/// `BarStateUpdate` is event number `0x80000014`.
pub fn test_event_type_bar_state_update() -> (s: TestStatus)
    ensures
        s@ is Pass,
{
    verdict(EventType::BarStateUpdate.code() == 0x80000014, "expected 0x80000014")
}

/// `Input` is event number `0x80000015`.
pub fn test_event_type_input() -> (s: TestStatus)
    ensures
        s@ is Pass,
{
    verdict(EventType::Input.code() == 0x80000015, "expected 0x80000015")
}

/// The IPC checks, in the order that [`register`] adds them.
pub open spec fn ipc_checks() -> Seq<TestInfo> {
    seq![
        check(Category::Ipc, "version_info_fields"@, "get_version"@, Priority::P0),
        check(Category::Ipc, "version_info_json_format"@, "get_version"@, Priority::P0),
        check(Category::Ipc, "workspace_info_fields"@, "get_workspaces"@, Priority::P0),
        check(Category::Ipc, "tree_node_type_rename"@, "get_tree"@, Priority::P0),
        check(Category::Ipc, "tree_node_nested"@, "get_tree"@, Priority::P0),
        check(Category::Ipc, "command_result_format"@, "run_command"@, Priority::P0),
        check(Category::Ipc, "output_info_fields"@, "get_outputs"@, Priority::P0),
        check(Category::Ipc, "protocol_magic_bytes"@, "ipc protocol"@, Priority::P0),
        check(Category::Ipc, "protocol_header_size"@, "ipc protocol"@, Priority::P0),
        check(Category::Ipc, "tree_node_optional_skip"@, "get_tree"@, Priority::P1),
        check(Category::Ipc, "subscribe_event_types"@, "subscribe"@, Priority::P1),
        check(Category::Ipc, "message_type_run_command"@, "ipc message types"@, Priority::P0),
        check(Category::Ipc, "message_type_get_workspaces"@, "ipc message types"@, Priority::P0),
        check(Category::Ipc, "message_type_subscribe"@, "ipc message types"@, Priority::P0),
        check(Category::Ipc, "message_type_get_outputs"@, "ipc message types"@, Priority::P0),
        check(Category::Ipc, "message_type_get_tree"@, "ipc message types"@, Priority::P0),
        check(Category::Ipc, "message_type_get_marks"@, "ipc message types"@, Priority::P1),
        check(Category::Ipc, "message_type_get_bar_config"@, "ipc message types"@, Priority::P1),
        check(Category::Ipc, "message_type_get_version"@, "ipc message types"@, Priority::P0),
        check(Category::Ipc, "message_type_get_binding_modes"@, "ipc message types"@, Priority::P1),
        check(Category::Ipc, "message_type_get_config"@, "ipc message types"@, Priority::P1),
        check(Category::Ipc, "message_type_get_inputs"@, "ipc message types"@, Priority::P1),
        check(Category::Ipc, "message_type_get_seats"@, "ipc message types"@, Priority::P1),
        check(Category::Ipc, "event_type_workspace"@, "ipc event types"@, Priority::P0),
        check(Category::Ipc, "event_type_window"@, "ipc event types"@, Priority::P0),
        check(Category::Ipc, "event_type_output"@, "ipc event types"@, Priority::P1),
        check(Category::Ipc, "event_type_mode"@, "ipc event types"@, Priority::P1),
        check(Category::Ipc, "event_type_binding"@, "ipc event types"@, Priority::P1),
        check(Category::Ipc, "event_type_shutdown"@, "ipc event types"@, Priority::P1),
        check(Category::Ipc, "encode_decode_roundtrip"@, "ipc protocol encode/decode"@, Priority::P0),
        check(Category::Ipc, "event_type_tick"@, "ipc event types"@, Priority::P2),
        check(Category::Ipc, "event_type_bar_config_update"@, "ipc event types"@, Priority::P2),
        check(Category::Ipc, "event_type_bar_state_update"@, "ipc event types"@, Priority::P2),
        check(Category::Ipc, "event_type_input"@, "ipc event types"@, Priority::P2),
        check(Category::Ipc, "message_type_send_tick"@, "ipc message types"@, Priority::P2),
        check(Category::Ipc, "message_type_sync"@, "ipc message types"@, Priority::P2),
    ]
}

/// Registers the IPC checks after those the harness holds.
#[verifier::rlimit(60)]
pub fn register(harness: &mut Harness, json: IpcJsonChecks)
    ensures
        infos(final(harness).tests()) == infos(old(harness).tests()) + ipc_checks(),
{
    reg_fn(harness, Category::Ipc, "version_info_fields", "get_version 响应包含所有必需字段", "get_version", Priority::P0, json.version_info_fields);
    reg_fn(harness, Category::Ipc, "version_info_json_format", "get_version JSON 格式与 Sway 兼容", "get_version", Priority::P0, json.version_info_json_format);
    reg_fn(harness, Category::Ipc, "workspace_info_fields", "get_workspaces 响应包含所有必需字段", "get_workspaces", Priority::P0, json.workspace_info_fields);
    reg_fn(harness, Category::Ipc, "tree_node_type_rename", "get_tree 节点 type 字段正确重命名", "get_tree", Priority::P0, json.tree_node_type_rename);
    reg_fn(harness, Category::Ipc, "tree_node_nested", "get_tree 支持嵌套子节点", "get_tree", Priority::P0, json.tree_node_nested);
    reg_fn(harness, Category::Ipc, "command_result_format", "命令结果数组格式与 Sway 兼容", "run_command", Priority::P0, json.command_result_format);
    reg_fn(harness, Category::Ipc, "output_info_fields", "get_outputs 响应包含所有必需字段", "get_outputs", Priority::P0, json.output_info_fields);
    reg(harness, Category::Ipc, "protocol_magic_bytes", "IPC 协议 magic bytes 正确", "ipc protocol", Priority::P0, test_protocol_magic_bytes);
    reg(harness, Category::Ipc, "protocol_header_size", "IPC 协议 header 大小正确", "ipc protocol", Priority::P0, test_protocol_header_size);
    reg_fn(harness, Category::Ipc, "tree_node_optional_skip", "TreeNode 可选字段为 None 时不序列化", "get_tree", Priority::P1, json.tree_node_optional_skip);
    reg(harness, Category::Ipc, "subscribe_event_types", "支持 workspace/window 事件订阅", "subscribe", Priority::P1, test_subscribe_event_types);
    reg(harness, Category::Ipc, "message_type_run_command", "MessageType::RunCommand == 0", "ipc message types", Priority::P0, test_message_type_run_command);
    reg(harness, Category::Ipc, "message_type_get_workspaces", "MessageType::GetWorkspaces == 1", "ipc message types", Priority::P0, test_message_type_get_workspaces);
    reg(harness, Category::Ipc, "message_type_subscribe", "MessageType::Subscribe == 2", "ipc message types", Priority::P0, test_message_type_subscribe);
    reg(harness, Category::Ipc, "message_type_get_outputs", "MessageType::GetOutputs == 3", "ipc message types", Priority::P0, test_message_type_get_outputs);
    reg(harness, Category::Ipc, "message_type_get_tree", "MessageType::GetTree == 4", "ipc message types", Priority::P0, test_message_type_get_tree);
    reg(harness, Category::Ipc, "message_type_get_marks", "MessageType::GetMarks == 5", "ipc message types", Priority::P1, test_message_type_get_marks);
    reg(harness, Category::Ipc, "message_type_get_bar_config", "MessageType::GetBarConfig == 6", "ipc message types", Priority::P1, test_message_type_get_bar_config);
    reg(harness, Category::Ipc, "message_type_get_version", "MessageType::GetVersion == 7", "ipc message types", Priority::P0, test_message_type_get_version);
    reg(harness, Category::Ipc, "message_type_get_binding_modes", "MessageType::GetBindingModes == 8", "ipc message types", Priority::P1, test_message_type_get_binding_modes);
    reg(harness, Category::Ipc, "message_type_get_config", "MessageType::GetConfig == 9", "ipc message types", Priority::P1, test_message_type_get_config);
    reg(harness, Category::Ipc, "message_type_get_inputs", "MessageType::GetInputs == 100", "ipc message types", Priority::P1, test_message_type_get_inputs);
    reg(harness, Category::Ipc, "message_type_get_seats", "MessageType::GetSeats == 101", "ipc message types", Priority::P1, test_message_type_get_seats);
    reg(harness, Category::Ipc, "event_type_workspace", "EventType::Workspace == 0x80000000", "ipc event types", Priority::P0, test_event_type_workspace);
    reg(harness, Category::Ipc, "event_type_window", "EventType::Window == 0x80000003", "ipc event types", Priority::P0, test_event_type_window);
    reg(harness, Category::Ipc, "event_type_output", "EventType::Output == 0x80000001", "ipc event types", Priority::P1, test_event_type_output);
    reg(harness, Category::Ipc, "event_type_mode", "EventType::Mode == 0x80000002", "ipc event types", Priority::P1, test_event_type_mode);
    reg(harness, Category::Ipc, "event_type_binding", "EventType::Binding == 0x80000005", "ipc event types", Priority::P1, test_event_type_binding);
    reg(harness, Category::Ipc, "event_type_shutdown", "EventType::Shutdown == 0x80000006", "ipc event types", Priority::P1, test_event_type_shutdown);
    reg(harness, Category::Ipc, "encode_decode_roundtrip", "IPC 协议 encode/decode 往返正确", "ipc protocol encode/decode", Priority::P0, test_encode_decode_roundtrip);
    reg(harness, Category::Ipc, "event_type_tick", "EventType::Tick == 0x80000007", "ipc event types", Priority::P2, test_event_type_tick);
    reg(harness, Category::Ipc, "event_type_bar_config_update", "EventType::BarConfigUpdate == 0x80000004", "ipc event types", Priority::P2, test_event_type_bar_config_update);
    reg(harness, Category::Ipc, "event_type_bar_state_update", "EventType::BarStateUpdate == 0x80000014", "ipc event types", Priority::P2, test_event_type_bar_state_update);
    reg(harness, Category::Ipc, "event_type_input", "EventType::Input == 0x80000015", "ipc event types", Priority::P2, test_event_type_input);
    reg(harness, Category::Ipc, "message_type_send_tick", "MessageType::SendTick == 10", "ipc message types", Priority::P2, test_message_type_send_tick);
    reg(harness, Category::Ipc, "message_type_sync", "MessageType::Sync == 11", "ipc message types", Priority::P2, test_message_type_sync);
    assert(infos(harness.tests()) =~= infos(old(harness).tests()) + ipc_checks());
}

} // verus!
