//! An example plugged-in service: a control channel with one writable
//! inbound characteristic and one indicate-capable outbound
//! characteristic.

use vstd::prelude::*;
use crate::descriptor::{CharProps, CharacteristicDescriptor, ServiceDescriptor};
use crate::event::{GattResponse, ReadEvent, WriteEvent};
use crate::registry::CharHandle;
use crate::server::{GattServiceHandler, ServiceCommunication, ServiceEvent};
use crate::status::BtError;

verus! {

/// A minimal control service: peers write commands to its receive
/// characteristic and subscribe to its indicate characteristic for
/// reports.
pub struct WifiCtl;

impl WifiCtl {
    /// The characteristic peers write control data to.
    pub const RECV_CHARACTERISTIC_UUID: u128 = 0xb6fccb5087be44f3ae22f85485ea42c4;

    /// The characteristic peers subscribe to and receive data from.
    pub const IND_CHARACTERISTIC_UUID: u128 = 0x503de214868246c4828fd59144da41be;

    /// This service's 128-bit identifier.
    pub const SERVICE_UUID: u128 = 0xad91b201734740479e173bed82d72222;

    /// The service's static declaration: the write-only receive
    /// characteristic, then the readable, indicate-capable report
    /// characteristic — both answered by the application, never by the
    /// driver.
    pub fn descriptor(&self) -> (d: ServiceDescriptor)
        ensures
            d.uuid == Self::SERVICE_UUID,
            d.is_primary,
            d.inst_id == 0,
            d.characteristics@.len() == 2,
            d.characteristics@[0] == (CharacteristicDescriptor {
                uuid: Self::RECV_CHARACTERISTIC_UUID,
                props: CharProps { read: false, write: true, notify: false, indicate: false },
                max_len: 200,
                auto_respond: false,
            }),
            d.characteristics@[1] == (CharacteristicDescriptor {
                uuid: Self::IND_CHARACTERISTIC_UUID,
                props: CharProps { read: true, write: true, notify: false, indicate: true },
                max_len: 200,
                auto_respond: false,
            }),
            crate::descriptor::chars_unique(d.characteristics@),
            crate::descriptor::attr_budget(d.characteristics@) <= u16::MAX,
    {
        let mut characteristics: Vec<CharacteristicDescriptor> = Vec::new();
        characteristics.push(
            CharacteristicDescriptor {
                uuid: Self::RECV_CHARACTERISTIC_UUID,
                props: CharProps { read: false, write: true, notify: false, indicate: false },
                max_len: 200,
                auto_respond: false,
            },
        );
        characteristics.push(
            CharacteristicDescriptor {
                uuid: Self::IND_CHARACTERISTIC_UUID,
                props: CharProps { read: true, write: true, notify: false, indicate: true },
                max_len: 200,
                auto_respond: false,
            },
        );
        proof {
            let s = characteristics@;
            let s1 = s.drop_last();
            assert(s1.drop_last() =~= Seq::<CharacteristicDescriptor>::empty());
            assert(crate::descriptor::attr_budget(s1.drop_last()) == 1);
            assert(s1.last() == s[0] && s1.last().attr_cost() == 2);
            assert(crate::descriptor::attr_budget(s1) == 3);
            assert(s.last() == s[1] && s.last().attr_cost() == 3);
            assert(crate::descriptor::attr_budget(s) == 6);
        }
        ServiceDescriptor {
            uuid: Self::SERVICE_UUID,
            inst_id: 0,
            is_primary: true,
            characteristics,
        }
    }
}

impl ServiceCommunication for WifiCtl {
    fn notify_event(&mut self, _event: ServiceEvent) {
    }
}

impl GattServiceHandler for WifiCtl {
    fn service_id(&self) -> u128 {
        Self::SERVICE_UUID
    }

    fn on_created(&mut self, _service_handle: u16, _char_handles: &Vec<CharHandle>) -> Result<
        (),
        BtError,
    > {
        Ok(())
    }

    fn on_write(&mut self, _event: &WriteEvent) -> Result<Option<GattResponse>, BtError> {
        Ok(None)
    }

    fn on_read(&mut self, _event: &ReadEvent) -> Result<Option<GattResponse>, BtError> {
        Ok(None)
    }

    fn on_connect(&mut self, _conn_id: u16, _addr: u64) -> Result<(), BtError> {
        Ok(())
    }

    fn on_disconnect(&mut self, _addr: u64) -> Result<(), BtError> {
        Ok(())
    }
}

} // verus!
