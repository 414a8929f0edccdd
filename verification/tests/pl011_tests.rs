use kernel::drivers::pl011::{
    init_step, received_char, rx_fifo_empty, tx_fifo_full, InitPhase, Reg, UartOp, PL011,
};

#[test]
fn register_addresses() {
    let uart = PL011::new(0x900_0000);
    assert_eq!(uart.register_address(Reg::Dr), 0x900_0000);
    assert_eq!(uart.register_address(Reg::Fr), 0x900_0018);
    assert_eq!(uart.register_address(Reg::Ibrd), 0x900_0024);
    assert_eq!(uart.register_address(Reg::Fbrd), 0x900_0028);
    assert_eq!(uart.register_address(Reg::LcrH), 0x900_002c);
    assert_eq!(uart.register_address(Reg::Cr), 0x900_0030);
}

#[test]
fn init_sequence() {
    let mut ops = Vec::new();
    // Register values read back, in order: CR, FR (busy), FR (idle),
    // LCR_H, LCR_H, CR.
    let reads = [0x0301u32, 0x08, 0x00, 0x7f, 0x0e, 0x0300];
    let mut next_read = 0;
    let mut phase = InitPhase::Start;
    let mut value = 0u32;
    loop {
        let (next, op) = init_step(phase, value);
        phase = next;
        match op {
            UartOp::Read(_) => {
                value = reads[next_read];
                next_read += 1;
            }
            UartOp::Write(_, _) => {}
            UartOp::Done => break,
        }
        ops.push(op);
    }
    assert_eq!(
        ops,
        vec![
            UartOp::Read(Reg::Cr),
            UartOp::Write(Reg::Cr, 0x0300),
            UartOp::Read(Reg::Fr),
            UartOp::Read(Reg::Fr),
            UartOp::Read(Reg::LcrH),
            UartOp::Write(Reg::LcrH, 0x6f),
            UartOp::Write(Reg::Ibrd, 3),
            UartOp::Write(Reg::Fbrd, 16),
            UartOp::Read(Reg::LcrH),
            UartOp::Write(Reg::LcrH, 0x76),
            UartOp::Read(Reg::Cr),
            UartOp::Write(Reg::Cr, 0x0301),
        ]
    );
    assert_eq!(phase, InitPhase::Finished);
}

#[test]
fn flag_decisions() {
    assert!(tx_fifo_full(0x20));
    assert!(!tx_fifo_full(0xdf));
    assert!(rx_fifo_empty(0x10));
    assert!(!rx_fifo_empty(0xef));
    assert_eq!(received_char(0x0f41), 0x41);
}
