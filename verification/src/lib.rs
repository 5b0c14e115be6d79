//! Verified core of a Bluetooth LE host library: advertising-data and
//! protocol parsing, device addresses, BLE UUID short forms and the
//! bookkeeping rules that the platform back ends share.

pub mod advertisement;
pub mod text;
pub mod bleuuid;
pub mod bdaddr;
pub mod api;
pub mod corebluetooth;
pub mod hci_codes;
pub mod hci;
pub mod hci_packet;
pub mod device;
pub mod att;
pub mod cb_peripheral;
pub mod hci_adapter;
pub mod cb_adapter;
pub mod bluez_peripheral;
pub mod cb_thread;
pub mod adapter_manager;
