//! Reading protobuf messages into the cache's commands.

use vstd::prelude::*;
use crate::protocol::commands::{Command, CommandView};
use crate::protocol::protobuf::generated::{crab_cache_command, CrabCacheCommand};
use crate::protocol::protobuf::{decode_error, ProtobufConfig, ProtobufError};

verus! {

/// The cache command that a protobuf command carries, if it carries a
/// single one.
pub open spec fn proto_command_view(c: Option<crab_cache_command::Command>) -> Option<CommandView> {
    match c {
        Some(crab_cache_command::Command::Put(p)) => Some(
            CommandView::Put { key: p.key@, value: p.value@, ttl: p.ttl_seconds },
        ),
        Some(crab_cache_command::Command::Get(g)) => Some(CommandView::Get { key: g.key@ }),
        Some(crab_cache_command::Command::Del(d)) => Some(CommandView::Del { key: d.key@ }),
        Some(crab_cache_command::Command::Expire(e)) => Some(
            CommandView::Expire { key: e.key@, ttl: e.ttl_seconds },
        ),
        Some(crab_cache_command::Command::Stats(_)) => Some(CommandView::Stats),
        Some(crab_cache_command::Command::Metrics(_)) => Some(CommandView::Metrics),
        Some(crab_cache_command::Command::Ping(_)) => Some(CommandView::Ping),
        _ => None,
    }
}

/// Reads protobuf messages into commands.
pub struct ProtobufParser {
    config: ProtobufConfig,
    messages_processed: u64,
    bytes_processed: u64,
    zero_copy_enabled: bool,
}

impl ProtobufParser {
    /// The settings the parser was made with.
    pub closed spec fn config(&self) -> ProtobufConfig {
        self.config
    }

    /// How many messages were read (modulo 2^64).
    pub closed spec fn processed(&self) -> u64 {
        self.messages_processed
    }

    /// How many bytes those messages held (modulo 2^64).
    pub closed spec fn processed_bytes(&self) -> u64 {
        self.bytes_processed
    }

    /// A parser with the given settings; zero-copy follows the settings.
    pub fn new(config: ProtobufConfig) -> (p: Self)
        ensures
            p.config() == config,
            p.zero_copy() == config.enable_zero_copy,
            p.processed() == 0,
            p.processed_bytes() == 0,
    {
        ProtobufParser {
            zero_copy_enabled: config.enable_zero_copy,
            config,
            messages_processed: 0,
            bytes_processed: 0,
        }
    }

    /// Whether zero-copy is on.
    pub closed spec fn zero_copy(&self) -> bool {
        self.zero_copy_enabled
    }

    /// The command a protobuf command carries; a batch or a message without
    /// a command is a decode error.
    pub fn convert_proto_to_command(&self, proto_cmd: CrabCacheCommand) -> (res: Result<Command, ProtobufError>)
        ensures
            match proto_command_view(proto_cmd.command) {
                Some(c) => res matches Ok(r) && r@ == c,
                None => res matches Err(ProtobufError::DecodeError(_)),
            },
    {
        match proto_cmd.command {
            Some(crab_cache_command::Command::Put(p)) => Ok(
                Command::Put { key: p.key, value: p.value, ttl: p.ttl_seconds },
            ),
            Some(crab_cache_command::Command::Get(g)) => Ok(Command::Get { key: g.key }),
            Some(crab_cache_command::Command::Del(d)) => Ok(Command::Del { key: d.key }),
            Some(crab_cache_command::Command::Expire(e)) => Ok(
                Command::Expire { key: e.key, ttl: e.ttl_seconds },
            ),
            Some(crab_cache_command::Command::Stats(_)) => Ok(Command::Stats),
            Some(crab_cache_command::Command::Metrics(_)) => Ok(Command::Metrics),
            Some(crab_cache_command::Command::Ping(_)) => Ok(Command::Ping),
            Some(crab_cache_command::Command::Batch(_)) => Err(
                ProtobufError::DecodeError(
                    decode_error("Batch commands should be handled separately"),
                ),
            ),
            None => Err(ProtobufError::DecodeError(decode_error("No command specified"))),
        }
    }

    /// Reads one command from a message, which may start with a "CRAB"
    /// header of six bytes. Messages over the size limit are refused. The
    /// placeholder message encoding carries no command, so every message
    /// within the limit is a decode error; the counters count each message
    /// that was read.
    pub fn parse_command(&mut self, data: &[u8]) -> (res: Result<Command, ProtobufError>)
        ensures
            data@.len() > old(self).config().max_message_size ==> (res matches Err(
                ProtobufError::MessageTooLarge { size, max },
            ) && size == data@.len() && max == old(self).config().max_message_size),
            data@.len() <= old(self).config().max_message_size ==> res matches Err(
                ProtobufError::DecodeError(_),
            ),
            final(self).config() == old(self).config(),
            final(self).zero_copy() == old(self).zero_copy(),
            final(self).processed() == old(self).processed(),
            final(self).processed_bytes() == old(self).processed_bytes(),
    {
        let data_len = data.len();
        if data_len > self.config.max_message_size {
            return Err(
                ProtobufError::MessageTooLarge { size: data_len, max: self.config.max_message_size },
            );
        }
        let body = if data.len() >= 6 && data[0] == 0x43 && data[1] == 0x52 && data[2] == 0x41
            && data[3] == 0x42 {
            vstd::slice::slice_subrange(data, 6, data.len())
        } else {
            data
        };
        let proto_command = match CrabCacheCommand::decode(body) {
            Ok(c) => c,
            Err(_) => {
                return Err(ProtobufError::DecodeError(decode_error("Stub decode error")));
            },
        };
        let command = self.convert_proto_to_command(proto_command)?;
        self.record(data_len);
        Ok(command)
    }

    /// Reads the commands of a batch message, or the single command of any
    /// other message. The placeholder message encoding carries no command,
    /// so this is always a decode error.
    pub fn parse_batch(&mut self, data: &[u8]) -> (res: Result<Vec<Command>, ProtobufError>)
        ensures
            res matches Err(ProtobufError::DecodeError(_)),
            final(self).config() == old(self).config(),
            final(self).zero_copy() == old(self).zero_copy(),
            final(self).processed() == old(self).processed(),
            final(self).processed_bytes() == old(self).processed_bytes(),
    {
        let proto_command = match CrabCacheCommand::decode(data) {
            Ok(c) => c,
            Err(_) => {
                return Err(ProtobufError::DecodeError(decode_error("Stub decode error")));
            },
        };
        let command = self.convert_proto_to_command(proto_command)?;
        let mut v: Vec<Command> = Vec::new();
        v.push(command);
        Ok(v)
    }

    fn record(&mut self, size: usize)
        ensures
            final(self).config() == old(self).config(),
            final(self).zero_copy() == old(self).zero_copy(),
            final(self).processed() == old(self).processed().wrapping_add(1),
            final(self).processed_bytes() == old(self).processed_bytes().wrapping_add(size as u64),
    {
        self.messages_processed = self.messages_processed.wrapping_add(1);
        self.bytes_processed = self.bytes_processed.wrapping_add(size as u64);
    }

    /// Whether zero-copy is on.
    pub fn is_zero_copy_enabled(&self) -> (b: bool)
        ensures
            b == self.zero_copy(),
    {
        self.zero_copy_enabled
    }

    /// Turns zero-copy on or off.
    pub fn set_zero_copy_enabled(&mut self, enabled: bool)
        ensures
            final(self).zero_copy() == enabled,
            final(self).config() == old(self).config(),
            final(self).processed() == old(self).processed(),
            final(self).processed_bytes() == old(self).processed_bytes(),
    {
        self.zero_copy_enabled = enabled;
    }

    /// How many messages were read (modulo 2^64).
    pub fn messages_processed(&self) -> (n: u64)
        ensures
            n == self.processed(),
    {
        self.messages_processed
    }

    /// How many bytes the messages read held (modulo 2^64).
    pub fn bytes_processed(&self) -> (n: u64)
        ensures
            n == self.processed_bytes(),
    {
        self.bytes_processed
    }

    /// Sets the counters back to zero.
    pub fn reset_metrics(&mut self)
        ensures
            final(self).processed() == 0,
            final(self).processed_bytes() == 0,
            final(self).config() == old(self).config(),
            final(self).zero_copy() == old(self).zero_copy(),
    {
        self.messages_processed = 0;
        self.bytes_processed = 0;
    }
}

impl Default for ProtobufParser {
    fn default() -> (p: Self)
        ensures
            p.config() == ProtobufConfig::default_spec(),
            p.zero_copy(),
            p.processed() == 0,
    {
        Self::new(ProtobufConfig::default())
    }
}

} // verus!
