use clmm_client::address::Address;
use clmm_client::error::Error;
use clmm_client::event::{Event, LIQUIDITY_CHANGE_TAG, POOL_CREATED_TAG, SWAP_EVENT_TAG};
use clmm_client::instruction::{
    InstructionArgs, CREATE_AMM_CONFIG_TAG, CREATE_POOL_TAG, DECREASE_LIQUIDITY_TAG,
    INCREASE_LIQUIDITY_TAG, INITIALIZE_REWARD_TAG, OPEN_POSITION_TAG, SET_REWARD_PARAMS_TAG,
    SWAP_TAG, SWAP_V2_TAG, TRANSFER_REWARD_OWNER_TAG,
};
use clmm_client::log::{
    decode_hex, decode_instruction_hex, decode_log_line, decode_logs, has_mark, interpret_event,
    Decoded,
};
use base64::engine::general_purpose::STANDARD;
use base64::Engine;
use sha2::{Digest, Sha256};

fn key(n: u8) -> Address {
    let mut bytes = [n; 32];
    bytes[31] = n.wrapping_mul(3);
    Address::new(bytes)
}

fn hashed_tag(namespace: &str, name: &str) -> u64 {
    let digest = Sha256::digest(format!("{}:{}", namespace, name).as_bytes());
    let mut first = [0u8; 8];
    first.copy_from_slice(&digest[..8]);
    u64::from_le_bytes(first)
}

fn all_args() -> Vec<InstructionArgs> {
    vec![
        InstructionArgs::CreateAmmConfig {
            index: 3,
            tick_spacing: 10,
            trade_fee_rate: 2500,
            protocol_fee_rate: 120000,
            fund_fee_rate: 40000,
        },
        InstructionArgs::CreatePool { sqrt_price_x64: 1u128 << 64, open_time: 1700000000 },
        InstructionArgs::OpenPosition {
            tick_lower_index: -120,
            tick_upper_index: 240,
            tick_array_lower_start_index: -600,
            tick_array_upper_start_index: 0,
            liquidity: u128::MAX,
            amount_0_max: 1,
            amount_1_max: u64::MAX,
        },
        InstructionArgs::IncreaseLiquidity { liquidity: 5, amount_0_max: 6, amount_1_max: 7 },
        InstructionArgs::DecreaseLiquidity { liquidity: 8, amount_0_min: 9, amount_1_min: 10 },
        InstructionArgs::Swap {
            amount: 1000,
            other_amount_threshold: 990,
            sqrt_price_limit_x64: 4295048017,
            is_base_input: true,
        },
        InstructionArgs::SwapV2 {
            amount: 1000,
            other_amount_threshold: 1010,
            sqrt_price_limit_x64: 0,
            is_base_input: false,
        },
        InstructionArgs::InitializeReward {
            open_time: 1,
            end_time: 2,
            emissions_per_second_x64: 3 << 64,
        },
        InstructionArgs::SetRewardParams {
            reward_index: 2,
            emissions_per_second_x64: 4 << 64,
            open_time: 5,
            end_time: 6,
        },
        InstructionArgs::TransferRewardOwner { new_owner: key(77) },
    ]
}

fn all_events() -> Vec<Event> {
    vec![
        Event::PoolCreated {
            token_mint_0: key(1),
            token_mint_1: key(2),
            tick_spacing: 10,
            pool_state: key(3),
            sqrt_price_x64: 1u128 << 64,
            tick: -1,
            token_vault_0: key(4),
            token_vault_1: key(5),
        },
        Event::Swap {
            pool_state: key(3),
            sender: key(6),
            token_account_0: key(7),
            token_account_1: key(8),
            amount_0: 100,
            transfer_fee_0: 1,
            amount_1: 200,
            transfer_fee_1: 2,
            zero_for_one: true,
            sqrt_price_x64: u128::MAX,
            liquidity: 12345,
            tick: 443636,
        },
        Event::LiquidityChange {
            pool_state: key(3),
            tick: -7,
            tick_lower: -600,
            tick_upper: 600,
            liquidity_before: 0,
            liquidity_after: 1 << 100,
        },
    ]
}

#[test]
fn instruction_tags_are_the_hashes_of_their_names() {
    assert_eq!(CREATE_AMM_CONFIG_TAG, hashed_tag("global", "create_amm_config"));
    assert_eq!(CREATE_POOL_TAG, hashed_tag("global", "create_pool"));
    assert_eq!(OPEN_POSITION_TAG, hashed_tag("global", "open_position"));
    assert_eq!(INCREASE_LIQUIDITY_TAG, hashed_tag("global", "increase_liquidity"));
    assert_eq!(DECREASE_LIQUIDITY_TAG, hashed_tag("global", "decrease_liquidity"));
    assert_eq!(SWAP_TAG, hashed_tag("global", "swap"));
    assert_eq!(SWAP_V2_TAG, hashed_tag("global", "swap_v2"));
    assert_eq!(INITIALIZE_REWARD_TAG, hashed_tag("global", "initialize_reward"));
    assert_eq!(SET_REWARD_PARAMS_TAG, hashed_tag("global", "set_reward_params"));
    assert_eq!(TRANSFER_REWARD_OWNER_TAG, hashed_tag("global", "transfer_reward_owner"));
}

#[test]
fn event_tags_are_the_hashes_of_their_names() {
    assert_eq!(POOL_CREATED_TAG, hashed_tag("event", "PoolCreatedEvent"));
    assert_eq!(SWAP_EVENT_TAG, hashed_tag("event", "SwapEvent"));
    assert_eq!(LIQUIDITY_CHANGE_TAG, hashed_tag("event", "LiquidityChangeEvent"));
}

#[test]
fn instruction_args_round_trip() {
    for args in all_args() {
        assert_eq!(InstructionArgs::decode(&args.encode()), Ok(args));
    }
}

#[test]
fn swap_args_have_their_exact_bytes() {
    let args = InstructionArgs::Swap {
        amount: 1000,
        other_amount_threshold: 990,
        sqrt_price_limit_x64: 4295048017,
        is_base_input: true,
    };
    let mut wanted = vec![248, 198, 158, 145, 225, 117, 135, 200];
    wanted.extend_from_slice(&1000u64.to_le_bytes());
    wanted.extend_from_slice(&990u64.to_le_bytes());
    wanted.extend_from_slice(&4295048017u128.to_le_bytes());
    wanted.push(1);
    assert_eq!(args.encode(), wanted);
    assert_eq!(wanted.len(), 41);
}

#[test]
fn open_position_args_have_their_exact_bytes() {
    let args = InstructionArgs::OpenPosition {
        tick_lower_index: -120,
        tick_upper_index: 240,
        tick_array_lower_start_index: -600,
        tick_array_upper_start_index: 0,
        liquidity: 77,
        amount_0_max: 1,
        amount_1_max: 2,
    };
    let mut wanted = vec![135, 128, 47, 77, 15, 152, 240, 49];
    wanted.extend_from_slice(&(-120i32).to_le_bytes());
    wanted.extend_from_slice(&240i32.to_le_bytes());
    wanted.extend_from_slice(&(-600i32).to_le_bytes());
    wanted.extend_from_slice(&0i32.to_le_bytes());
    wanted.extend_from_slice(&77u128.to_le_bytes());
    wanted.extend_from_slice(&1u64.to_le_bytes());
    wanted.extend_from_slice(&2u64.to_le_bytes());
    assert_eq!(args.encode(), wanted);
}

#[test]
fn instruction_args_cut_short_are_truncated() {
    for args in all_args() {
        let bytes = args.encode();
        assert_eq!(
            InstructionArgs::decode(&bytes[..bytes.len() - 1]),
            Err(Error::TruncatedData)
        );
        assert_eq!(InstructionArgs::decode(&bytes[..8]), Err(Error::TruncatedData));
        assert_eq!(InstructionArgs::decode(&bytes[..7]), Err(Error::TruncatedData));
    }
    assert_eq!(InstructionArgs::decode(&[]), Err(Error::TruncatedData));
}

#[test]
fn instruction_args_with_another_tag_are_unknown() {
    assert_eq!(InstructionArgs::decode(&[0u8; 64]), Err(Error::UnknownDiscriminator));
    let event = all_events()[1].encode();
    assert_eq!(InstructionArgs::decode(&event), Err(Error::UnknownDiscriminator));
}

#[test]
fn instruction_args_ignore_bytes_beyond_them() {
    for args in all_args() {
        let mut bytes = args.encode();
        bytes.push(0xff);
        assert_eq!(InstructionArgs::decode(&bytes), Ok(args));
    }
}

#[test]
fn any_byte_but_zero_is_a_true_flag() {
    let args = InstructionArgs::Swap {
        amount: 1,
        other_amount_threshold: 2,
        sqrt_price_limit_x64: 3,
        is_base_input: true,
    };
    let mut bytes = args.encode();
    bytes[40] = 200;
    assert_eq!(InstructionArgs::decode(&bytes), Ok(args));
    bytes[40] = 0;
    assert_eq!(
        InstructionArgs::decode(&bytes),
        Ok(InstructionArgs::Swap {
            amount: 1,
            other_amount_threshold: 2,
            sqrt_price_limit_x64: 3,
            is_base_input: false,
        })
    );
}

#[test]
fn events_round_trip() {
    for event in all_events() {
        assert_eq!(Event::decode(&event.encode()), Ok(event));
    }
    assert_eq!(all_events()[0].encode().len(), 190);
    assert_eq!(all_events()[1].encode().len(), 205);
    assert_eq!(all_events()[2].encode().len(), 84);
}

#[test]
fn events_cut_short_are_truncated() {
    for event in all_events() {
        let bytes = event.encode();
        assert_eq!(Event::decode(&bytes[..bytes.len() - 1]), Err(Error::TruncatedData));
    }
    assert_eq!(Event::decode(&[1, 2, 3]), Err(Error::TruncatedData));
    assert_eq!(Event::decode(&[0u8; 300]), Err(Error::UnknownDiscriminator));
}

#[test]
fn a_marked_log_line_holds_its_event() {
    for event in all_events() {
        let line = format!("Program data: {}", STANDARD.encode(event.encode()));
        assert_eq!(decode_log_line(&line), Decoded::Value(event));
    }
}

#[test]
fn an_unmarked_log_line_is_passed_over() {
    assert_eq!(decode_log_line("Program log: Instruction: Swap"), Decoded::Unmarked);
    assert_eq!(decode_log_line(""), Decoded::Unmarked);
    assert_eq!(decode_log_line("Program data:"), Decoded::Unmarked);
    assert_eq!(decode_log_line("program data: AAAA"), Decoded::Unmarked);
    let text = STANDARD.encode(all_events()[0].encode());
    assert_eq!(decode_log_line(&text), Decoded::Unmarked);
    assert!(has_mark(b"Program data: x"));
    assert!(!has_mark(b"Program data; x"));
}

#[test]
fn a_log_line_that_is_not_base64_is_malformed() {
    assert_eq!(decode_log_line("Program data: ***"), Decoded::Malformed);
    assert_eq!(decode_log_line("Program data: QUJD\u{e9}"), Decoded::Malformed);
    assert_eq!(interpret_event(None), Decoded::Malformed);
}

#[test]
fn a_log_line_with_other_data_is_rejected() {
    assert_eq!(
        decode_log_line("Program data: "),
        Decoded::Rejected(Error::TruncatedData)
    );
    let line = format!("Program data: {}", STANDARD.encode([0u8; 40]));
    assert_eq!(decode_log_line(&line), Decoded::Rejected(Error::UnknownDiscriminator));
    let cut = &all_events()[2].encode()[..50];
    let line = format!("Program data: {}", STANDARD.encode(cut));
    assert_eq!(decode_log_line(&line), Decoded::Rejected(Error::TruncatedData));
    assert_eq!(
        interpret_event(Some(vec![1, 2, 3])),
        Decoded::Rejected(Error::TruncatedData)
    );
}

#[test]
fn each_log_line_is_decoded_by_itself() {
    let event = all_events()[1];
    let lines = vec![
        "Program 11111111111111111111111111111111 invoke [1]".to_string(),
        "Program data: %%%".to_string(),
        format!("Program data: {}", STANDARD.encode(event.encode())),
        format!("Program data: {}", STANDARD.encode([9u8; 9])),
    ];
    assert_eq!(
        decode_logs(&lines),
        vec![
            Decoded::Unmarked,
            Decoded::Malformed,
            Decoded::Value(event),
            Decoded::Rejected(Error::UnknownDiscriminator),
        ]
    );
    assert_eq!(decode_logs(&vec![]), vec![]);
}

#[test]
fn hexadecimal_text_is_read_in_pairs() {
    assert_eq!(decode_hex(b"00ff10"), Some(vec![0, 255, 16]));
    assert_eq!(decode_hex(b"aAbBcCdDeEfF"), Some(vec![0xaa, 0xbb, 0xcc, 0xdd, 0xee, 0xff]));
    assert_eq!(decode_hex(b"0123456789"), Some(vec![0x01, 0x23, 0x45, 0x67, 0x89]));
    assert_eq!(decode_hex(b""), Some(vec![]));
    assert_eq!(decode_hex(b"abc"), None);
    assert_eq!(decode_hex(b"0g"), None);
    assert_eq!(decode_hex(b"g0"), None);
    assert_eq!(decode_hex(b"0x10"), None);
    assert_eq!(decode_hex(b" 10"), None);
    assert_eq!(decode_hex(b"/0"), None);
    assert_eq!(decode_hex(b":0"), None);
    assert_eq!(decode_hex(b"@0"), None);
    assert_eq!(decode_hex(b"G0"), None);
    assert_eq!(decode_hex(b"`0"), None);
}

#[test]
fn an_instruction_is_decoded_from_its_hexadecimal_text() {
    for args in all_args() {
        let text: String = args.encode().iter().map(|b| format!("{:02x}", b)).collect();
        assert_eq!(decode_instruction_hex(&text), Decoded::Value(args));
    }
    assert_eq!(decode_instruction_hex("zz"), Decoded::Malformed);
    assert_eq!(decode_instruction_hex("0"), Decoded::Malformed);
    assert_eq!(decode_instruction_hex("00"), Decoded::Rejected(Error::TruncatedData));
    assert_eq!(
        decode_instruction_hex("0000000000000000"),
        Decoded::Rejected(Error::UnknownDiscriminator)
    );
}
