//! Driver-private ioctl command codes, with the values of the kernel's driver
//! headers, and the plain layouts some of these commands exchange.

use vstd::prelude::*;

verus! {

// ADC (drv/adc.h)
pub const ADC_IOCTL_SET_CHANNEL: i32 = 0x01;
pub const ADC_IOCTL_GET_CHANNEL: i32 = 0x02;
pub const ADC_IOCTL_SET_VREF_MV: i32 = 0x03;

// Stream engine (iface/stream_device.h)
pub const STREAM_IOCTL_SET_MODE: i32 = 0xF0;
pub const STREAM_IOCTL_GET_MODE: i32 = 0xF1;
pub const STREAM_MODE_POLL: u32 = 0;
pub const STREAM_MODE_IRQ: u32 = 1;
pub const STREAM_MODE_DMA: u32 = 2;

// UART (drv/uart.h)
pub const UART_IOCTL_SET_BAUDRATE: i32 = 0x01;
pub const UART_IOCTL_GET_BAUDRATE: i32 = 0x02;
pub const UART_IOCTL_GET_BRR: i32 = 0x03;
pub const UART_IOCTL_SET_FRAMING: i32 = 0x05;

// GPIO pin (drv/gpio_pin.h)
pub const GPIO_IOCTL_TOGGLE: i32 = 0x01;

// PWM (drv/pwm.h)
pub const PWM_IOCTL_SET_DUTY_PERCENT: i32 = 0x20;
pub const PWM_IOCTL_SET_DUTY_TICKS: i32 = 0x21;
pub const PWM_IOCTL_SET_FREQ: i32 = 0x22;
pub const PWM_IOCTL_GET_PERIOD_TICKS: i32 = 0x23;
pub const PWM_IOCTL_GET_DUTY_TICKS: i32 = 0x24;
pub const PWM_IOCTL_ENABLE_CHANNEL: i32 = 0x25;
pub const PWM_IOCTL_DISABLE_CHANNEL: i32 = 0x26;
pub const PWM_IOCTL_GET_BDTR: i32 = 0x27;

// SPI (drv/spi.h)
pub const SPI_IOCTL_XFER: i32 = 0x40;
pub const SPI_IOCTL_GET_CR1: i32 = 0x41;

// I2C (drv/i2c.h)
pub const I2C_IOCTL_MASTER_WRITE: i32 = 0x30;
pub const I2C_IOCTL_MASTER_READ: i32 = 0x31;
pub const I2C_IOCTL_BUS_SCAN: i32 = 0x32;
pub const I2C_IOCTL_SET_SPEED: i32 = 0x33;
pub const I2C_IOCTL_GET_CR1: i32 = 0x35;
pub const I2C_IOCTL_GET_BUSY: i32 = 0x36;
pub const I2C_IOCTL_GET_CCR: i32 = 0x37;
pub const I2C_IOCTL_GET_CR2_FREQ: i32 = 0x38;
pub const I2C_IOCTL_SET_ADDR: i32 = 0x39;
pub const I2C_IOCTL_GET_ADDR: i32 = 0x3a;

// Temperature sensor (drv/temp_sensor.h)
pub const TEMP_IOCTL_READ_X10: i32 = 0x01;
pub const TEMP_IOCTL_SET_VREF_MV: i32 = 0x02;
pub const TEMP_IOCTL_GET_CAL1: i32 = 0x03;
pub const TEMP_IOCTL_GET_CAL2: i32 = 0x04;

// Timer (drv/timer.h)
pub const TIMER_IOCTL_GET_OVERFLOWS: i32 = 0x01;
pub const TIMER_IOCTL_GET_COUNTER: i32 = 0x02;
pub const TIMER_IOCTL_SET_REPETITION: i32 = 0x03;
pub const TIMER_IOCTL_GET_REPETITION: i32 = 0x04;
pub const TIMER_IOCTL_ENABLE: i32 = 0x05;
pub const TIMER_IOCTL_DISABLE: i32 = 0x06;

// CRC (drv/crc.h)
pub const CRC_IOCTL_RESET: i32 = 0x60;
pub const CRC_IOCTL_UPDATE: i32 = 0x61;
pub const CRC_IOCTL_RESULT: i32 = 0x62;

// EXTI (drv/exti.h)
pub const EXTI_IOCTL_GET_COUNT: i32 = 0x30;
pub const EXTI_IOCTL_TRIGGER: i32 = 0x31;

// DAC (drv/dac.h)
pub const DAC_IOCTL_SET_VALUE: i32 = 0x60;
pub const DAC_IOCTL_GET_VALUE: i32 = 0x61;
pub const DAC_IOCTL_GET_CR: i32 = 0x62;

// RTC (drv/rtc.h)
pub const RTC_IOCTL_SET_TIME: i32 = 0x60;
pub const RTC_IOCTL_GET_TIME: i32 = 0x61;
pub const RTC_IOCTL_SET_DATE: i32 = 0x62;
pub const RTC_IOCTL_GET_DATE: i32 = 0x63;
pub const RTC_IOCTL_GET_PRER: i32 = 0x64;
pub const RTC_IOCTL_GET_BDCR: i32 = 0x65;
pub const RTC_IOCTL_GET_RAW_DR: i32 = 0x67;

// Clock (drv/clock.h)
pub const CLK_IOCTL_GET_SYSCLK_HZ: i32 = 0x01;

// USB CDC (drv/usb.h)
pub const USB_IOCTL_GET_GINTSTS: i32 = 0xD0;
pub const USB_IOCTL_GET_GCCFG: i32 = 0xD1;
pub const USB_IOCTL_GET_DSTS: i32 = 0xD2;
pub const USB_IOCTL_GET_ADDRESS: i32 = 0xD3;
pub const USB_IOCTL_CONNECTED: i32 = 0xD4;
pub const USB_IOCTL_SET_LINE_CODING: i32 = 0xD5;
pub const USB_IOCTL_GET_LINE_CODING: i32 = 0xD6;
pub const USB_IOCTL_RUN_CTRL_SELFTEST: i32 = 0xD7;
pub const USB_IOCTL_DBG_DUMP: i32 = 0xD8;
pub const USB_IOCTL_DBG_SET: i32 = 0xD9;
pub const USB_IOCTL_SET_DAD_TEST: i32 = 0xDA;
pub const USB_IOCTL_TX_FREE: i32 = 0xDB;
pub const USB_IOCTL_TX_PUMP: i32 = 0xDC;
pub const USB_IOCTL_RX_REARM: i32 = 0xDD;
pub const USB_IOCTL_REENUM: i32 = 0xDE;

// CAN (drv/can.h)
pub const CAN_IOCTL_SEND_FRAME: i32 = 0x01;
pub const CAN_IOCTL_RECV_FRAME: i32 = 0x02;
pub const CAN_IOCTL_GET_MCR: i32 = 0x03;
pub const CAN_IOCTL_GET_BTR: i32 = 0x04;
pub const CAN_IOCTL_GET_MSR: i32 = 0x05;
pub const CAN_IOCTL_GET_ESR: i32 = 0x06;
pub const CAN_IOCTL_GET_TSR: i32 = 0x07;
pub const CAN_IOCTL_GET_RF0R: i32 = 0x08;
pub const CAN_IOCTL_GET_FA1R: i32 = 0x09;
pub const CAN_IOCTL_GET_FMR: i32 = 0x0A;
pub const CAN_BTR_LBKM: u32 = 1 << 30;

// FLASH (drv/flash.h)
pub const FLASH_IOCTL_GET_SECTOR: i32 = 0x70;
pub const FLASH_IOCTL_GET_BASE: i32 = 0x71;
pub const FLASH_IOCTL_GET_STATUS: i32 = 0x72;
pub const FLASH_SR_BSY: u32 = 1 << 16;

// IWDG (drv/iwdg.h)
pub const IWDG_IOCTL_SET_PRESCALER: i32 = 0x60;
pub const IWDG_IOCTL_SET_RELOAD: i32 = 0x61;
pub const IWDG_IOCTL_GET_PRESCALER: i32 = 0x62;
pub const IWDG_IOCTL_GET_RELOAD: i32 = 0x63;
pub const IWDG_IOCTL_START: i32 = 0x64;
pub const IWDG_IOCTL_REFRESH: i32 = 0x65;
pub const IWDG_IOCTL_GET_STATUS: i32 = 0x66;

// WWDG (drv/wwdg.h)
pub const WWDG_IOCTL_SET_PRESCALER: i32 = 0x60;
pub const WWDG_IOCTL_SET_WINDOW: i32 = 0x61;
pub const WWDG_IOCTL_GET_CONFIG: i32 = 0x62;
pub const WWDG_IOCTL_START: i32 = 0x63;
pub const WWDG_IOCTL_REFRESH: i32 = 0x64;
pub const WWDG_IOCTL_GET_COUNTER: i32 = 0x65;
pub const WWDG_IOCTL_GET_STATUS: i32 = 0x66;

// I2S (drv/i2s.h)
pub const I2S_IOCTL_GET_I2SCFGR: i32 = 0x01;
pub const I2S_IOCTL_GET_I2SPR: i32 = 0x02;
pub const I2S_IOCTL_GET_PLLI2S: i32 = 0x03;
pub const I2S_IOCTL_GET_CFGR: i32 = 0x04;
pub const I2S_IOCTL_GET_PLL_RDY: i32 = 0x05;
pub const I2S_IOCTL_GET_AUDIO_HZ: i32 = 0x06;
pub const I2S_IOCTL_GET_I2S_CLK: i32 = 0x07;
pub const I2S_I2SCFGR_I2SE: u32 = 1 << 10;

// SDIO (drv/sdio.h)
pub const SDIO_IOCTL_CMD: i32 = 0x50;
pub const SDIO_IOCTL_CMD_DATA: i32 = 0x51;
pub const SDIO_IOCTL_SET_CLOCK: i32 = 0x52;
pub const SDIO_IOCTL_GET_POWER: i32 = 0x54;
pub const SDIO_IOCTL_GET_CLKCR: i32 = 0x55;
pub const SDIO_CLKCR_CLKDIV: u32 = 0xFF;
pub const SDIO_CLKCR_CLKEN: u32 = 1 << 8;
pub const SDIO_CLKCR_WIDBUS_0: u32 = 1 << 11;

// SD Card (drv/sd_card.c)
pub const SD_CARD_IOCTL_INIT: i32 = 0x60;
pub const SD_CARD_IOCTL_READ_BLOCK: i32 = 0x61;
pub const SD_CARD_IOCTL_WRITE_BLOCK: i32 = 0x62;

// FSMC (drv/fsmc.h)
pub const FSMC_IOCTL_SET_BCR: i32 = 0x80;
pub const FSMC_IOCTL_GET_BCR: i32 = 0x81;
pub const FSMC_IOCTL_SET_BTR: i32 = 0x82;
pub const FSMC_IOCTL_GET_BTR: i32 = 0x83;
pub const FSMC_IOCTL_GET_BWTR: i32 = 0x84;
pub const FSMC_IOCTL_BANK1_ENABLE: i32 = 0x85;
pub const FSMC_BCR_MBKEN: u32 = 1 << 0;
pub const FSMC_BCR_WREN: u32 = 1 << 12;
pub const FSMC_BCR_MTYP: u32 = 0x3 << 2;
pub const FSMC_BCR_MWID: u32 = 0x3 << 4;

/// One CAN frame (layout of the HAL's `can_frame_t`).
#[derive(Clone, Copy, PartialEq, Eq, Debug)]
pub struct CanFrame {
    /// 11-bit standard or 29-bit extended identifier.
    pub id: u32,
    /// 1 for an extended identifier.
    pub ext: u8,
    /// 1 for a remote frame (no data).
    pub rtr: u8,
    /// Data length, 0 to 8.
    pub dlc: u8,
    pub data: [u8; 8],
}

/// An SD block transfer: `count` 512-byte blocks from block `lba`, through `buf`.
#[derive(PartialEq, Eq, Debug)]
pub struct SdBlockIo {
    pub lba: u64,
    pub count: u32,
    pub buf: Vec<u8>,
}

} // verus!
