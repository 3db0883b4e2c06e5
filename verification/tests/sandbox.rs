use godot_vim::sandbox::sandbox_config_text;
#[test]
fn preserves_safe_mappings() {
    let input = "nnoremap j gj\nnnoremap k gk\n";
    let output = sandbox_config_text(input);
    assert!(output.contains("nnoremap j gj"));
    assert!(output.contains("nnoremap k gk"));
}

#[test]
fn strips_shell_bang_mapping() {
    let input = "nnoremap <Leader>r :!python %<CR>\n";
    let output = sandbox_config_text(input);
    assert!(output.starts_with("\" [sandbox] stripped:"));
    assert!(!output.starts_with("nnoremap"));
}

#[test]
fn strips_system_call_mapping() {
    let input = "nnoremap <Leader>x :call system('rm -rf /')<CR>\n";
    let output = sandbox_config_text(input);
    assert!(output.starts_with("\" [sandbox] stripped:"));
    assert!(!output.starts_with("nnoremap"));
}

#[test]
fn preserves_set_commands() {
    let input = "set timeoutlen=500\n";
    let output = sandbox_config_text(input);
    assert!(output.contains("set timeoutlen=500"));
}

#[test]
fn preserves_comments() {
    let input = "\" This is a comment with :! in it\n";
    let output = sandbox_config_text(input);
    assert!(output.contains("\" This is a comment with :! in it"));
}

#[test]
fn preserves_blank_lines() {
    let input = "\n\n";
    let output = sandbox_config_text(input);
    assert_eq!(output, "\n\n");
}

#[test]
fn mixed_config_partial_strip() {
    let input = "\
nnoremap j gj
nnoremap <Leader>r :!cargo run<CR>
set scrolloff=5
inoremap jk <Esc>
";
    let output = sandbox_config_text(input);
    assert!(output.contains("nnoremap j gj"));
    assert!(!output
        .lines()
        .any(|l| l.trim().starts_with("nnoremap <Leader>r :!cargo")));
    assert!(output.contains("set scrolloff=5"));
    assert!(output.contains("inoremap jk <Esc>"));
}

#[test]
fn filter_range_bang() {
    // `:{range}!` style in a mapping RHS
    let input = "vnoremap <Leader>f :!sort<CR>\n";
    let output = sandbox_config_text(input);
    assert!(output.contains("[sandbox] stripped"));
}

#[test]
fn strips_execute_mapping() {
    let input = "nnoremap <Leader>e :call execute('!rm -rf /')<CR>\n";
    let output = sandbox_config_text(input);
    assert!(output.starts_with("\" [sandbox] stripped:"));
}

#[test]
fn strips_shellescape_mapping() {
    let input = "nnoremap <Leader>s :echo shellescape(expand('%'))<CR>\n";
    let output = sandbox_config_text(input);
    assert!(output.starts_with("\" [sandbox] stripped:"));
}

#[test]
fn strips_readfile_mapping() {
    let input = "nnoremap <Leader>r :echo readfile('/etc/passwd')<CR>\n";
    let output = sandbox_config_text(input);
    assert!(output.starts_with("\" [sandbox] stripped:"));
}

#[test]
fn strips_writefile_mapping() {
    let input = "nnoremap <Leader>w :call writefile(['pwned'], '/tmp/evil')<CR>\n";
    let output = sandbox_config_text(input);
    assert!(output.starts_with("\" [sandbox] stripped:"));
}

#[test]
fn strips_read_bang_mapping() {
    let input = "nnoremap <Leader>r :read !cat /etc/passwd<CR>\n";
    let output = sandbox_config_text(input);
    assert!(output.contains("[sandbox] stripped"));
}

#[test]
fn strips_r_bang_mapping() {
    let input = "nnoremap <Leader>r :r !cat /etc/passwd<CR>\n";
    let output = sandbox_config_text(input);
    assert!(output.contains("[sandbox] stripped"));
}

#[test]
fn strips_glob_mapping() {
    let input = "nnoremap <Leader>g :echo glob('*')<CR>\n";
    let output = sandbox_config_text(input);
    assert!(output.contains("[sandbox] stripped"));
}

#[test]
fn strips_getfperm_mapping() {
    let input = "nnoremap <Leader>p :echo getfperm('/etc/passwd')<CR>\n";
    let output = sandbox_config_text(input);
    assert!(output.contains("[sandbox] stripped"));
}

#[test]
fn strips_getftype_mapping() {
    let input = "nnoremap <Leader>t :echo getftype('/tmp')<CR>\n";
    let output = sandbox_config_text(input);
    assert!(output.contains("[sandbox] stripped"));
}

#[test]
fn strips_getfsize_mapping() {
    let input = "nnoremap <Leader>s :echo getfsize('/etc/passwd')<CR>\n";
    let output = sandbox_config_text(input);
    assert!(output.contains("[sandbox] stripped"));
}

#[test]
fn strips_systemlist_mapping() {
    let input = "nnoremap <Leader>l :echo systemlist('whoami')<CR>\n";
    let output = sandbox_config_text(input);
    assert!(output.contains("[sandbox] stripped"));
}

#[test]
fn strips_abbreviated_nn_shell_mapping() {
    let input = "nn <Leader>x :!rm -rf /<CR>\n";
    let output = sandbox_config_text(input);
    assert!(output.contains("[sandbox] stripped"));
}

#[test]
fn strips_abbreviated_no_shell_mapping() {
    let input = "no <Leader>x :!rm -rf /<CR>\n";
    let output = sandbox_config_text(input);
    assert!(output.contains("[sandbox] stripped"));
}

#[test]
fn strips_abbreviated_ino_shell_mapping() {
    let input = "ino <Leader>x :!rm -rf /<CR>\n";
    let output = sandbox_config_text(input);
    assert!(output.contains("[sandbox] stripped"));
}

#[test]
fn strips_abbreviated_nm_shell_mapping() {
    let input = "nm <Leader>x :!rm -rf /<CR>\n";
    let output = sandbox_config_text(input);
    assert!(output.contains("[sandbox] stripped"));
}

#[test]
fn strips_bang_suffix_map_command() {
    let input = "nnoremap! <Leader>x :!rm -rf /<CR>\n";
    let output = sandbox_config_text(input);
    assert!(output.contains("[sandbox] stripped"));
}

#[test]
fn strips_abbreviated_bang_suffix() {
    let input = "nn! <Leader>x :!rm -rf /<CR>\n";
    let output = sandbox_config_text(input);
    assert!(output.contains("[sandbox] stripped"));
}

#[test]
fn strips_map_bang_suffix() {
    let input = "map! <Leader>x :!rm -rf /<CR>\n";
    let output = sandbox_config_text(input);
    assert!(output.contains("[sandbox] stripped"));
}

#[test]
fn strips_case_insensitive_map_command() {
    let input = "NNOREMAP <Leader>x :!rm -rf /<CR>\n";
    let output = sandbox_config_text(input);
    assert!(output.contains("[sandbox] stripped"));
}

#[test]
fn strips_cmap_shell_mapping() {
    let input = "cmap <Leader>r <C-r>=system('whoami')<CR>\n";
    let output = sandbox_config_text(input);
    assert!(output.contains("[sandbox] stripped"));
}

#[test]
fn strips_cnoremap_shell_mapping() {
    let input = "cnoremap <Leader>x :!rm -rf /<CR>\n";
    let output = sandbox_config_text(input);
    assert!(output.contains("[sandbox] stripped"));
}

#[test]
fn non_mapping_with_pattern_passes_through_in_comments() {
    let input = "\" This comment mentions :read ! and glob(\n";
    let output = sandbox_config_text(input);
    assert!(output.contains(":read !"));
    assert!(output.contains("glob("));
}

#[test]
fn strips_let_with_mapleader_prefix_in_variable_name() {
    // "mapleader_hack" contains "mapleader" as a prefix but is NOT
    // the mapleader variable — must be stripped by the sandbox.
    let input = "let mapleader_hack = 1\n";
    let output = sandbox_config_text(input);
    assert!(
        output.contains("[sandbox] stripped"),
        "mapleader_hack should be stripped"
    );
}

#[test]
fn preserves_let_mapleader_exact() {
    let input = "let mapleader = \" \"\n";
    let output = sandbox_config_text(input);
    assert!(output.contains("let mapleader"));
    assert!(!output.contains("[sandbox] stripped"));
}

#[test]
fn preserves_let_g_mapleader() {
    let input = "let g:mapleader = \",\"\n";
    let output = sandbox_config_text(input);
    assert!(output.contains("let g:mapleader"));
    assert!(!output.contains("[sandbox] stripped"));
}

#[test]
fn strips_let_with_embedded_mapleader() {
    let input = "let g:x = \"mapleader\" | call system('whoami')\n";
    let output = sandbox_config_text(input);
    assert!(output.contains("[sandbox] stripped"));
}

#[test]
fn strips_raw_source_outside_mapping() {
    let input = "source res://evil.vim\n";
    let output = sandbox_config_text(input);
    assert!(output.contains("[sandbox] stripped"));
}

#[test]
fn strips_raw_shell_bang_outside_mapping() {
    let input = "!rm -rf /\n";
    let output = sandbox_config_text(input);
    assert!(output.contains("[sandbox] stripped"));
}

#[test]
fn preserves_set_and_let_in_sandbox() {
    let input = "set scrolloff=5\nlet mapleader = \" \"\n";
    let output = sandbox_config_text(input);
    assert!(output.contains("set scrolloff=5"));
    assert!(output.contains("let mapleader"));
}

#[test]
fn strips_source_mapping() {
    let input = "nnoremap <Leader>s :source res://evil.txt<CR>\n";
    let output = sandbox_config_text(input);
    assert!(output.contains("[sandbox] stripped"));
}

#[test]
fn strips_so_abbreviated_mapping() {
    let input = "nnoremap <Leader>s :so res://evil.txt<CR>\n";
    let output = sandbox_config_text(input);
    assert!(output.contains("[sandbox] stripped"));
}

#[test]
fn strips_source_intermediate_abbreviations() {
    for abbrev in &["sou", "sour", "sourc", "source"] {
        let input = format!("nnoremap <Leader>s :{} evil.txt<CR>\n", abbrev);
        let output = sandbox_config_text(&input);
        assert!(
            output.contains("[sandbox] stripped"),
            "failed for :{}",
            abbrev
        );
    }
}

#[test]
fn strips_read_intermediate_abbreviations() {
    for abbrev in &["r", "re", "rea", "read"] {
        let input = format!("nnoremap <Leader>r :{} !cat /etc/passwd<CR>\n", abbrev);
        let output = sandbox_config_text(&input);
        assert!(
            output.contains("[sandbox] stripped"),
            "failed for :{}",
            abbrev
        );
    }
}

#[test]
fn strips_case_insensitive_ex_commands() {
    let cases = &[
        "nnoremap <Leader>r :Read !cat /etc/passwd<CR>\n",
        "nnoremap <Leader>r :READ !cat /etc/passwd<CR>\n",
        "nnoremap <Leader>r :R !cat /etc/passwd<CR>\n",
        "nnoremap <Leader>s :Source evil.txt<CR>\n",
        "nnoremap <Leader>s :SOURCE evil.txt<CR>\n",
        "nnoremap <Leader>s :So evil.txt<CR>\n",
        "nnoremap <Leader>s :SOU evil.txt<CR>\n",
    ];
    for case in cases {
        let output = sandbox_config_text(case);
        assert!(
            output.contains("[sandbox] stripped"),
            "failed for: {}",
            case.trim()
        );
    }
}

#[test]
fn strips_range_bang_patterns() {
    let cases = &[
        "nnoremap <Leader>x :%!sort<CR>\n",
        "nnoremap <Leader>x :'<,'>!sort<CR>\n",
        "nnoremap <Leader>x :1,$!sort<CR>\n",
        "nnoremap <Leader>x :.!sh<CR>\n",
    ];
    for case in cases {
        let output = sandbox_config_text(case);
        assert!(
            output.contains("[sandbox] stripped"),
            "failed for: {}",
            case.trim()
        );
    }
}

#[test]
fn no_panic_on_multibyte_after_colon() {
    // Should not panic on multi-byte UTF-8 after `:` — just pass through.
    let input = "nnoremap <Leader>x :ñfoo<CR>\n";
    let output = sandbox_config_text(input);
    assert!(output.contains("nnoremap")); // safe mapping, not stripped
}

// --- Recursive mapping stripping tests ---

#[test]
fn strips_recursive_nmap_with_safe_rhs() {
    // Even though the RHS is safe, recursive `nmap` is stripped because
    // chained recursive mappings can compose dangerous expansions.
    let input = "nmap j gj\n";
    let output = sandbox_config_text(input);
    assert!(
        output.contains("[sandbox] stripped recursive map"),
        "recursive nmap with safe RHS should be stripped, got: {}",
        output
    );
    assert!(!output.starts_with("nmap"));
}

#[test]
fn preserves_nnoremap_with_safe_rhs() {
    // Non-recursive `nnoremap` with safe RHS should pass through.
    let input = "nnoremap j gj\n";
    let output = sandbox_config_text(input);
    assert!(
        output.contains("nnoremap j gj"),
        "non-recursive nnoremap with safe RHS should pass through, got: {}",
        output
    );
    assert!(!output.contains("[sandbox] stripped"));
}

#[test]
fn strips_recursive_map_with_safe_rhs() {
    // `map` (mode-agnostic recursive) is stripped even with safe RHS.
    let input = "map j gj\n";
    let output = sandbox_config_text(input);
    assert!(
        output.contains("[sandbox] stripped recursive map"),
        "recursive map with safe RHS should be stripped, got: {}",
        output
    );
    assert!(!output.starts_with("map j"));
}

#[test]
fn strips_recursive_vmap_with_safe_rhs() {
    let input = "vmap <Leader>y \"+y\n";
    let output = sandbox_config_text(input);
    assert!(output.contains("[sandbox] stripped recursive map"));
}

#[test]
fn strips_recursive_imap_with_safe_rhs() {
    let input = "imap jk <Esc>\n";
    let output = sandbox_config_text(input);
    assert!(output.contains("[sandbox] stripped recursive map"));
}

#[test]
fn strips_recursive_omap_with_safe_rhs() {
    let input = "omap p ip\n";
    let output = sandbox_config_text(input);
    assert!(output.contains("[sandbox] stripped recursive map"));
}

#[test]
fn strips_recursive_cmap_with_safe_rhs() {
    let input = "cmap <C-a> <Home>\n";
    let output = sandbox_config_text(input);
    assert!(output.contains("[sandbox] stripped recursive map"));
}

#[test]
fn strips_abbreviated_recursive_nm() {
    let input = "nm j gj\n";
    let output = sandbox_config_text(input);
    assert!(output.contains("[sandbox] stripped recursive map"));
}

#[test]
fn strips_abbreviated_recursive_vm() {
    let input = "vm <Leader>y \"+y\n";
    let output = sandbox_config_text(input);
    assert!(output.contains("[sandbox] stripped recursive map"));
}

#[test]
fn strips_abbreviated_recursive_im() {
    let input = "im jk <Esc>\n";
    let output = sandbox_config_text(input);
    assert!(output.contains("[sandbox] stripped recursive map"));
}

#[test]
fn strips_recursive_map_with_bang_suffix() {
    let input = "nmap! j gj\n";
    let output = sandbox_config_text(input);
    assert!(output.contains("[sandbox] stripped recursive map"));
}

#[test]
fn strips_case_insensitive_recursive_nmap() {
    let input = "NMAP j gj\n";
    let output = sandbox_config_text(input);
    assert!(output.contains("[sandbox] stripped recursive map"));
}

#[test]
fn preserves_noremap_variants() {
    // All noremap variants with safe RHS should pass through.
    let cases = &[
        "noremap j gj\n",
        "nnoremap j gj\n",
        "vnoremap <Leader>y \"+y\n",
        "inoremap jk <Esc>\n",
        "onoremap p ip\n",
        "cnoremap <C-a> <Home>\n",
    ];
    for case in cases {
        let output = sandbox_config_text(case);
        assert!(
            !output.contains("[sandbox] stripped"),
            "noremap variant should not be stripped: {}",
            case.trim()
        );
    }
}

#[test]
fn preserves_abbreviated_noremap_variants() {
    let cases = &[
        "no j gj\n",
        "nn j gj\n",
        "vn <Leader>y \"+y\n",
        "ino jk <Esc>\n",
        "ono p ip\n",
        "cno <C-a> <Home>\n",
    ];
    for case in cases {
        let output = sandbox_config_text(case);
        assert!(
            !output.contains("[sandbox] stripped"),
            "abbreviated noremap should not be stripped: {}",
            case.trim()
        );
    }
}

#[test]
fn mixed_recursive_and_noremap() {
    let input = "\
nnoremap j gj
nmap k gk
set scrolloff=5
inoremap jk <Esc>
imap jj <Esc>
";
    let output = sandbox_config_text(input);
    // nnoremap and inoremap pass through
    assert!(output.contains("nnoremap j gj"));
    assert!(output.contains("inoremap jk <Esc>"));
    assert!(output.contains("set scrolloff=5"));
    // nmap and imap are stripped
    assert!(output
        .lines()
        .any(|l| l.contains("stripped recursive map") && l.contains("nmap k gk")));
    assert!(output
        .lines()
        .any(|l| l.contains("stripped recursive map") && l.contains("imap jj <Esc>")));
}

// --- M21: Multi-option `set` line blocking ---

#[test]
fn strips_multi_option_set_with_blocked_second_option() {
    // `set scrolloff=5 shell=/bin/evil` — `scrolloff` is safe but `shell` is blocked.
    let input = "set scrolloff=5 shell=/bin/evil\n";
    let output = sandbox_config_text(input);
    assert!(
        output.contains("[sandbox] stripped"),
        "multi-option set with blocked shell should be stripped, got: {}",
        output
    );
}

#[test]
fn strips_multi_option_set_with_blocked_third_option() {
    let input = "set scrolloff=5 number makeprg=evil\n";
    let output = sandbox_config_text(input);
    assert!(
        output.contains("[sandbox] stripped"),
        "multi-option set with blocked makeprg should be stripped, got: {}",
        output
    );
}

#[test]
fn strips_multi_option_set_blocked_first_option() {
    let input = "set shell=/bin/evil scrolloff=5\n";
    let output = sandbox_config_text(input);
    assert!(
        output.contains("[sandbox] stripped"),
        "multi-option set with blocked shell first should be stripped, got: {}",
        output
    );
}

#[test]
fn preserves_multi_option_set_all_safe() {
    let input = "set scrolloff=5 number relativenumber\n";
    let output = sandbox_config_text(input);
    assert!(
        output.contains("set scrolloff=5 number relativenumber"),
        "multi-option set with all safe options should pass through, got: {}",
        output
    );
    assert!(!output.contains("[sandbox] stripped"));
}

#[test]
fn strips_multi_option_set_with_short_blocked_name() {
    // `sh` is the short form of `shell`.
    let input = "set scrolloff=5 sh=/bin/evil\n";
    let output = sandbox_config_text(input);
    assert!(
        output.contains("[sandbox] stripped"),
        "multi-option set with blocked sh should be stripped, got: {}",
        output
    );
}

#[test]
fn strips_multi_option_set_with_no_prefix() {
    // `set noshell` — the `no` prefix targets `shell`.
    let input = "set scrolloff=5 noshell\n";
    let output = sandbox_config_text(input);
    assert!(
        output.contains("[sandbox] stripped"),
        "multi-option set with noshell should be stripped, got: {}",
        output
    );
}

// --- M22: Case-insensitive `set`/`se` prefix detection ---

#[test]
fn strips_uppercase_set_with_blocked_option() {
    let input = "SET shell=/bin/evil\n";
    let output = sandbox_config_text(input);
    assert!(
        output.contains("[sandbox] stripped"),
        "uppercase SET with blocked option should be stripped, got: {}",
        output
    );
}

#[test]
fn strips_mixed_case_set_with_blocked_option() {
    let input = "Set shell=/bin/evil\n";
    let output = sandbox_config_text(input);
    assert!(
        output.contains("[sandbox] stripped"),
        "mixed case Set with blocked option should be stripped, got: {}",
        output
    );
}

#[test]
fn strips_uppercase_se_with_blocked_option() {
    let input = "SE shell=/bin/evil\n";
    let output = sandbox_config_text(input);
    assert!(
        output.contains("[sandbox] stripped"),
        "uppercase SE with blocked option should be stripped, got: {}",
        output
    );
}

#[test]
fn preserves_uppercase_set_with_safe_option() {
    let input = "SET scrolloff=5\n";
    let output = sandbox_config_text(input);
    assert!(
        !output.contains("[sandbox] stripped"),
        "uppercase SET with safe option should pass through, got: {}",
        output
    );
}

#[test]
fn strips_uppercase_set_multi_option_with_blocked() {
    // M21 + M22 combined: case-insensitive prefix AND multi-option check.
    let input = "SET scrolloff=5 shell=/bin/evil\n";
    let output = sandbox_config_text(input);
    assert!(
        output.contains("[sandbox] stripped"),
        "uppercase SET with multi-option blocked should be stripped, got: {}",
        output
    );
}

#[test]
fn sandboxing_twice_changes_nothing() {
    let text = "set number\nmap x y\nnnoremap j gj\nset shell=/bin/sh\n\" note\n\nlet mapleader = \",\"\nnnoremap q :!rm -rf /<CR>\ncall system('x')\n";
    let once = sandbox_config_text(text);
    assert_eq!(sandbox_config_text(&once), once);
}
