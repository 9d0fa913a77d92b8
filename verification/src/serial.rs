//! Serial port settings. Opening and driving the port is the caller's
//! part; this module holds what the user configures and how it is shown.
use vstd::prelude::*;

use crate::text::{decimal, u32_to_string};

verus! {

/// Number of bits per character.
#[derive(Debug, Clone, Copy, PartialEq, Eq, Structural)]
pub enum DataBits {
    Five,
    Six,
    Seven,
    Eight,
}

/// Parity checking mode.
#[derive(Debug, Clone, Copy, PartialEq, Eq, Structural)]
pub enum Parity {
    NoParity,
    Odd,
    Even,
}

/// Number of stop bits.
#[derive(Debug, Clone, Copy, PartialEq, Eq, Structural)]
pub enum StopBits {
    One,
    Two,
}

/// Flow control mode.
#[derive(Debug, Clone, Copy, PartialEq, Eq, Structural)]
pub enum FlowControl {
    NoFlowControl,
    /// XON/XOFF.
    Software,
    /// RTS/CTS.
    Hardware,
}

/// User-facing serial configuration.
#[derive(Debug, Clone)]
pub struct SerialConfig {
    pub port_name: String,
    pub baud_rate: u32,
    pub data_bits: DataBits,
    pub parity: Parity,
    pub stop_bits: StopBits,
    pub flow_control: FlowControl,
}

impl Default for SerialConfig {
    fn default() -> (c: Self)
        ensures
            c.port_name@ == Seq::<char>::empty(),
            c.baud_rate == 115_200,
            c.data_bits == DataBits::Eight,
            c.parity == Parity::NoParity,
            c.stop_bits == StopBits::One,
            c.flow_control == FlowControl::NoFlowControl,
    {
        SerialConfig {
            port_name: String::new(),
            baud_rate: 115_200,
            data_bits: DataBits::Eight,
            parity: Parity::NoParity,
            stop_bits: StopBits::One,
            flow_control: FlowControl::NoFlowControl,
        }
    }
}

impl SerialConfig {
    /// Summary for the status bar: `<port> @ <baud>`, e.g. "COM3 @ 115200".
    pub fn describe(&self) -> (s: String)
        ensures
            s@ == self.port_name@ + " @ "@ + decimal(self.baud_rate as nat),
    {
        let mut s = String::from_str(self.port_name.as_str());
        s.append(" @ ");
        let baud = u32_to_string(self.baud_rate);
        s.append(baud.as_str());
        s
    }
}

} // verus!
