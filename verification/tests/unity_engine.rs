use unity_p2p_core::unity::{
    DifficultyCalc, Header, RewardsCalculator, SealType, UnityEngineParams,
};

fn reward_params() -> UnityEngineParams {
    UnityEngineParams {
        rampup_upper_bound: 259200,
        rampup_lower_bound: 0,
        rampup_start_value: 748994641621655092,
        rampup_end_value: 1497989283243310185,
        lower_block_reward: 748994641621655092,
        upper_block_reward: 1497989283243310185,
        difficulty_bound_divisor: 1,
        difficulty_bound_divisor_unity: 1,
        minimum_difficulty: 0,
        block_time_lower_bound: 0,
        block_time_upper_bound: 0,
        block_time_unity: 0,
    }
}

fn difficulty_params() -> UnityEngineParams {
    UnityEngineParams {
        rampup_upper_bound: 0,
        rampup_lower_bound: 0,
        rampup_start_value: 0,
        rampup_end_value: 0,
        lower_block_reward: 0,
        upper_block_reward: 0,
        difficulty_bound_divisor: 2048,
        difficulty_bound_divisor_unity: 20,
        minimum_difficulty: 16,
        block_time_lower_bound: 5,
        block_time_upper_bound: 15,
        block_time_unity: 10,
    }
}

#[test]
fn test_calculate_rewards_number1() {
    let params = reward_params();
    let calculator = RewardsCalculator::new(&params, None, 0);
    let mut header = Header::default();
    header.set_number(1);
    assert_eq!(calculator.calculate_reward(&header), 748997531261476163u128);
}

#[test]
fn test_calculate_rewards_number10000() {
    let params = reward_params();
    let calculator = RewardsCalculator::new(&params, None, 0);
    let mut header = Header::default();
    header.set_number(10000);
    assert_eq!(calculator.calculate_reward(&header), 777891039832365092u128);
}

#[test]
fn test_calculate_rewards_number259200() {
    let params = reward_params();
    let calculator = RewardsCalculator::new(&params, None, 0);
    let mut header = Header::default();
    header.set_number(259200);
    assert_eq!(calculator.calculate_reward(&header), 1497989283243258292u128);
}

#[test]
fn test_calculate_rewards_number300000() {
    let params = reward_params();
    let calculator = RewardsCalculator::new(&params, None, 0);
    let mut header = Header::default();
    header.set_number(300000);
    assert_eq!(calculator.calculate_reward(&header), 1497989283243310185u128);
}

#[test]
fn test_calculate_difficulty_first_pos() {
    let params = difficulty_params();
    let calculator = DifficultyCalc::new(&params, Some(0u64), Some(2000000000u128));
    let mut parent_header = Header::default();
    parent_header.set_timestamp(1524538000u64);
    parent_header.set_difficulty(1);
    parent_header.set_number(3);
    let mut grand_parent_header = Header::default();
    grand_parent_header.set_timestamp(1524528000u64);
    grand_parent_header.set_number(2);
    let mut great_grand_parent_header = Header::default();
    great_grand_parent_header.set_timestamp(1524518000u64);
    great_grand_parent_header.set_number(1);
    let difficulty = calculator.calculate_difficulty(
        &parent_header,
        Some(&grand_parent_header),
        Some(&great_grand_parent_header),
    );
    assert_eq!(difficulty, 2000000000u128);
}

#[test]
fn test_calculate_difficulty() {
    let params = difficulty_params();
    let calculator = DifficultyCalc::new(&params, Some(0u64), Some(2000000000u128));
    let mut parent_header = Header::default();
    parent_header.set_timestamp(1524538000u64);
    parent_header.set_difficulty(1);
    parent_header.set_number(3);
    let mut grand_parent_header = Header::default();
    grand_parent_header.set_timestamp(1524528000u64);
    grand_parent_header.set_number(2);
    grand_parent_header.set_seal_type(SealType::PoS);
    let mut great_grand_parent_header = Header::default();
    great_grand_parent_header.set_timestamp(1524518000u64);
    great_grand_parent_header.set_number(1);
    let difficulty = calculator.calculate_difficulty(
        &parent_header,
        Some(&grand_parent_header),
        Some(&great_grand_parent_header),
    );
    assert_eq!(difficulty, 16u128);
}

#[test]
fn test_calculate_difficulty2() {
    let params = difficulty_params();
    let calculator = DifficultyCalc::new(&params, Some(10u64), Some(2000000000u128));
    let mut parent_header = Header::default();
    parent_header.set_timestamp(1524528030u64);
    parent_header.set_difficulty(2000);
    parent_header.set_number(3);
    let mut grand_parent_header = Header::default();
    grand_parent_header.set_timestamp(1524528010u64);
    grand_parent_header.set_number(2);
    grand_parent_header.set_difficulty(2000);
    grand_parent_header.set_seal_type(SealType::PoS);
    let mut great_grand_parent_header = Header::default();
    great_grand_parent_header.set_timestamp(1524528000u64);
    great_grand_parent_header.set_number(1);
    let difficulty = calculator.calculate_difficulty(
        &parent_header,
        Some(&grand_parent_header),
        Some(&great_grand_parent_header),
    );
    assert_eq!(difficulty, 1999u128);

    // Unity difficulty rule
    let calculator = DifficultyCalc::new(&params, Some(0u64), Some(2000000000u128));
    let difficulty = calculator.calculate_difficulty(
        &parent_header,
        Some(&grand_parent_header),
        Some(&great_grand_parent_header),
    );
    assert_eq!(difficulty, 1904u128);
}

#[test]
fn test_calculate_difficulty3() {
    let params = difficulty_params();
    let calculator = DifficultyCalc::new(&params, Some(10u64), Some(2000000000u128));
    let mut parent_header = Header::default();
    parent_header.set_timestamp(1524528020u64);
    parent_header.set_difficulty(3000);
    parent_header.set_number(3);
    let mut grand_parent_header = Header::default();
    grand_parent_header.set_timestamp(1524528010u64);
    grand_parent_header.set_number(2);
    grand_parent_header.set_difficulty(3000);
    grand_parent_header.set_seal_type(SealType::PoS);
    let mut great_grand_parent_header = Header::default();
    great_grand_parent_header.set_timestamp(1524528005u64);
    great_grand_parent_header.set_number(1);
    let difficulty = calculator.calculate_difficulty(
        &parent_header,
        Some(&grand_parent_header),
        Some(&great_grand_parent_header),
    );
    assert_eq!(difficulty, 3000u128);

    // Unity difficulty rule
    let calculator = DifficultyCalc::new(&params, Some(0u64), Some(2000000000u128));
    let difficulty = calculator.calculate_difficulty(
        &parent_header,
        Some(&grand_parent_header),
        Some(&great_grand_parent_header),
    );
    assert_eq!(difficulty, 3149u128);
}

#[test]
fn test_calculate_difficulty4() {
    let params = difficulty_params();
    let calculator = DifficultyCalc::new(&params, Some(10u64), Some(2000000000u128));
    let mut parent_header = Header::default();
    parent_header.set_timestamp(1524528020u64);
    parent_header.set_difficulty(16);
    parent_header.set_number(3);
    let mut grand_parent_header = Header::default();
    grand_parent_header.set_timestamp(1524528010u64);
    grand_parent_header.set_number(2);
    grand_parent_header.set_difficulty(16);
    grand_parent_header.set_seal_type(SealType::PoS);
    let mut great_grand_parent_header = Header::default();
    great_grand_parent_header.set_timestamp(1524528005u64);
    great_grand_parent_header.set_number(1);
    let difficulty = calculator.calculate_difficulty(
        &parent_header,
        Some(&grand_parent_header),
        Some(&great_grand_parent_header),
    );
    assert_eq!(difficulty, 16u128);

    // Unity difficulty rule
    let calculator = DifficultyCalc::new(&params, Some(0u64), Some(2000000000u128));
    let difficulty = calculator.calculate_difficulty(
        &parent_header,
        Some(&grand_parent_header),
        Some(&great_grand_parent_header),
    );
    assert_eq!(difficulty, 17u128);
}

#[test]
fn reward_never_falls_with_height() {
    let params = reward_params();
    let calculator = RewardsCalculator::new(&params, None, 0);
    let mut prev = 0u128;
    let mut header = Header::default();
    for n in [1u64, 2, 100, 10000, 259199, 259200, 259201, 300000, 1000000] {
        header.set_number(n);
        let r = calculator.calculate_reward(&header);
        assert!(r >= prev);
        prev = r;
    }
}

#[test]
fn reward_flat_outside_the_ramp() {
    let mut params = reward_params();
    params.rampup_lower_bound = 100;
    let calculator = RewardsCalculator::new(&params, None, 0);
    let mut header = Header::default();
    header.set_number(0);
    let at_zero = calculator.calculate_reward(&header);
    header.set_number(100);
    assert_eq!(calculator.calculate_reward(&header), at_zero);
    header.set_number(259201);
    let above = calculator.calculate_reward(&header);
    header.set_number(1000000);
    assert_eq!(calculator.calculate_reward(&header), above);
    assert_eq!(above, params.upper_block_reward);
}

#[test]
fn reward_after_unity_fork_is_flat() {
    let params = reward_params();
    let calculator = RewardsCalculator::new(&params, Some(500), 42);
    let mut header = Header::default();
    header.set_number(500);
    assert_eq!(calculator.calculate_reward(&header), 42u128);
    header.set_number(499);
    assert_ne!(calculator.calculate_reward(&header), 42u128);
}

#[test]
fn difficulty_clamps_to_minimum() {
    let params = difficulty_params();
    // proof-of-stake child with a tiny starting value: clamped up
    let calculator = DifficultyCalc::new(&params, Some(0u64), Some(1u128));
    let parent = Header::default();
    let difficulty = calculator.calculate_difficulty(&parent, None, None);
    assert_eq!(difficulty, 16u128);
}

#[test]
fn pow_step_stays_within_bound() {
    let params = difficulty_params();
    let calculator = DifficultyCalc::new(&params, Some(10u64), None);
    let mut parent = Header::default();
    parent.set_number(3);
    parent.set_difficulty(1_000_000);
    parent.set_timestamp(1000);
    let mut gp = Header::default();
    gp.set_number(2);
    // a slow block: difficulty steps down by difficulty / 2048
    gp.set_timestamp(900);
    let down = calculator.calculate_difficulty(&parent, Some(&gp), None);
    assert_eq!(down, 1_000_000 - 1_000_000 / 2048);
    // a fast block: difficulty steps up by the same bound
    gp.set_timestamp(999);
    let up = calculator.calculate_difficulty(&parent, Some(&gp), None);
    assert_eq!(up, 1_000_000 + 1_000_000 / 2048);
}
