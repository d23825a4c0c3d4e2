use competeevolve::prompts::{
    agent_system, metrics_line, round_prompt, Baselines, Brief, RoundBrief, RoundFeedback, Rules,
    StandingLine, GENERATION_SYSTEM,
};

fn brief() -> Brief {
    Brief {
        description: "D".to_string(),
        goal: "G".to_string(),
        contract: "C".to_string(),
        least_quality: "0.8900".to_string(),
        quality: "0.9000".to_string(),
        tolerance: "0.01".to_string(),
        time: "1.00000".to_string(),
        quality_exponent: "4".to_string(),
        speed_exponent: "1".to_string(),
    }
}

fn baselines(reference: bool) -> Baselines {
    Baselines {
        quality: "0.9000".to_string(),
        quality_std: "0.0100".to_string(),
        fit_time: "0.50000".to_string(),
        predict_time: "0.10000".to_string(),
        reference: if reference { Some(("0.9500".to_string(), "0.20000".to_string())) } else { None },
    }
}

fn line(position: usize, agent: &str, reward: u8) -> StandingLine {
    StandingLine {
        rank_position: position,
        agent: agent.to_string(),
        best_score: "0.5000".to_string(),
        best_performance: "1.0000".to_string(),
        reward,
        valid_candidates: 1,
        candidates: 2,
    }
}

#[test]
fn constraints_quote_the_numbers() {
    assert_eq!(
        brief().constraints(),
        "Constraints:\n- C\n- Only `numpy` (already imported as `np` above the block) and the Python standard library may be imported. scikit-learn, scipy and every other package are rejected.\n- Your output replaces everything between `# EVOLVE-BLOCK-START` and `# EVOLVE-BLOCK-END`, so it must be complete: helper functions plus the whole `class Model`.\n- Quality must stay at or above 0.8900 (baseline 0.9000 minus tolerance 0.01); otherwise the candidate is invalid no matter how fast it is.\n- Lower wall time (fit + predict) is rewarded: performance = (quality/0.9000)^4 x (1.00000s/time)^1."
    );
    assert!(GENERATION_SYSTEM.ends_with("You reply with code only."));
}

#[test]
fn agents_are_told_the_rules() {
    let rules = Rules {
        agents: 3,
        datasets: vec!["iris".to_string(), "wine".to_string()],
        budget: 5,
        novelty_weight: "0.5".to_string(),
        mu_threshold: "0.7".to_string(),
    };
    let text = agent_system(&brief(), &rules, "agent-2");
    assert!(text.starts_with("You are agent-2, one of 3 agents competing in CompeteEvolve, a system that improves machine-learning"));
    assert!(text.contains("\n\nTASK: D\nGOAL: G\n\nConstraints:\n"));
    assert!(text.contains("by a Python harness on iris, wine. Nothing is estimated.\n"));
    assert!(text.contains("x (quality/baseline)^4 x (baseline_time/time)^1. 1.0 means 'as good as the seed'.\n"));
    assert!(text.contains("quality >= baseline - 0.01.\n"));
    assert!(text.contains("squash(performance) x (1 - 0.5 + 0.5 x novelty), squash(x) = x/(1+x).\n"));
    assert!(text.contains("squash(best performance) >= 0.7.\n\nTOOLS\n"));
    assert!(text.contains("You have at most 5 tool calls this round."));
    assert!(text.ends_with("scored with zero novelty."));
}

#[test]
fn first_round_shows_the_reference_material() {
    let b = baselines(true);
    let prompt = round_prompt(&RoundBrief {
        round: 1,
        rounds: 3,
        baselines: &b,
        seed_block: "SEED",
        best: None,
        notes: " ",
        feedback: None,
        context: Some("CTX"),
        budget: 5,
    });
    assert_eq!(
        prompt,
        "ROUND 1 of 3.\n\nBaseline (seed) measured by the harness: quality 0.9000 (std 0.0100), fit 0.50000s, predict 0.10000s per fold.\nFor reference, scikit-learn's own implementation scores quality 0.9500 in 0.20000s per fold.\n\nSEED EVOLVE BLOCK (the original code):\n```python\nSEED\n```\n\nREFERENCE MATERIAL (excerpt, may be truncated):\nCTX\n\nYou have 5 tool calls. Begin by calling a tool. Finish with your plain-text notes."
    );
}

#[test]
fn later_rounds_give_feedback() {
    let b = baselines(false);
    let fb = RoundFeedback {
        standings: vec![line(1, "agent-2", 1), line(2, "agent-1", 0)],
        position: 2,
        reward: 0,
        best_rival_id: Some("r1".to_string()),
        best_rival_agent: Some("agent-2".to_string()),
        best_rival_block: Some("RIVAL".to_string()),
        best_rival_metrics: None,
    };
    let prompt = round_prompt(&RoundBrief {
        round: 2,
        rounds: 3,
        baselines: &b,
        seed_block: "SEED",
        best: None,
        notes: "N",
        feedback: Some(&fb),
        context: Some("CTX"),
        budget: 5,
    });
    assert!(prompt.contains("s per fold.\n\nSEED EVOLVE BLOCK"));
    assert!(prompt.contains("\nYou have no valid candidate yet. Priority: produce one that runs on every fold.\n\nYOUR NOTES FROM LAST ROUND:\nN\n"));
    assert!(prompt.contains("\nREINFORCEMENT FEEDBACK: you finished round 1 at position 2 of 2 and earned reward 0.\nLeaderboard:\n  #1 agent-2    score 0.5000  performance 1.0000  reward 1  valid 1/2\n  #2 agent-1    score 0.5000  performance 1.0000  reward 0  valid 1/2\nYou are in the unrewarded half."));
    assert!(prompt.contains("\nBEST RIVAL (agent-2, r1): {}\n```python\nRIVAL\n```\n"));
    assert!(!prompt.contains("CTX"));
}

#[test]
fn own_best_and_notes_are_cut() {
    let b = baselines(false);
    let fb = RoundFeedback {
        standings: vec![line(1, "agent-1", 1)],
        position: 1,
        reward: 1,
        best_rival_id: None,
        best_rival_agent: None,
        best_rival_block: None,
        best_rival_metrics: None,
    };
    let block = "b".repeat(6001);
    let notes = "n".repeat(2501);
    let prompt = round_prompt(&RoundBrief {
        round: 3,
        rounds: 3,
        baselines: &b,
        seed_block: "SEED",
        best: Some(("{\"id\":\"x\"}", &block)),
        notes: &notes,
        feedback: Some(&fb),
        context: None,
        budget: 1,
    });
    let shown = format!("\nYOUR BEST VALID CANDIDATE SO FAR: {{\"id\":\"x\"}}\n```python\n{}...\n```\n", "b".repeat(6000));
    assert!(prompt.contains(&shown));
    let kept = format!("\nYOUR NOTES FROM LAST ROUND:\n{}...\n", "n".repeat(2500));
    assert!(prompt.contains(&kept));
    assert!(prompt.contains("You are in the rewarded half."));
    assert!(!prompt.contains("BEST RIVAL"));
}

#[test]
fn metrics_have_a_place_for_what_is_missing() {
    assert_eq!(
        metrics_line(Some("0.97"), None, "14.6"),
        "quality 0.97 time -s performance 14.6"
    );
    assert_eq!(
        metrics_line(None, Some("0.0083"), "0"),
        "quality - time 0.0083s performance 0"
    );
}
