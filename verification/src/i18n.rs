//! Interface strings in English and Japanese.
use vstd::prelude::*;
use crate::config::Language;
use crate::text::str_eq;

verus! {

/// Number of entries in the message catalog.
pub const CATALOG_LEN: usize = 261;

/// Entry `i` of the message catalog: the key, its English text and its
/// Japanese text.
pub open spec fn catalog(i: usize) -> (Seq<char>, Seq<char>, Seq<char>) {
    match i {
        0 => ("ok"@, "OK"@, "OK"@),
        1 => ("cancel"@, "Cancel"@, "キャンセル"@),
        2 => ("save"@, "Save"@, "保存"@),
        3 => ("close"@, "Close"@, "閉じる"@),
        4 => ("settings"@, "Settings"@, "設定"@),
        5 => ("language"@, "Language"@, "言語"@),
        6 => ("theme_label"@, "Theme:"@, "テーマ:"@),
        7 => ("english"@, "English"@, "English"@),
        8 => ("japanese"@, "Japanese"@, "日本語"@),
        9 => ("dashboard"@, "Dashboard"@, "ダッシュボード"@),
        10 => ("diff"@, "Diff"@, "差分"@),
        11 => ("general"@, "General"@, "全般"@),
        12 => ("appearance"@, "Appearance"@, "外観設定"@),
        13 => ("members"@, "Members"@, "メンバー登録"@),
        14 => ("about"@, "About"@, "情報"@),
        15 => ("open_config_folder"@, "Open Config Folder"@, "設定フォルダを開く"@),
        16 => ("open_config_folder_tooltip"@, "Directly edit config.json / members.json / themes.json / tech_rules.json\n(Changes take effect upon app restart)"@, "config.json / members.json / themes.json / tech_rules.json を直接編集できます\n（編集内容はアプリ再起動で反映されます）"@),
        17 => ("tab_repos"@, "Repositories"@, "リポジトリ管理"@),
        18 => ("tab_members"@, "Members"@, "メンバー管理"@),
        19 => ("tab_appearance"@, "Appearance"@, "外観設定"@),
        20 => ("display_language"@, "Display Language"@, "表示言語"@),
        21 => ("select_display_language"@, "Select application display language."@, "アプリの表示言語を選択します。"@),
        22 => ("add_repo"@, "Add New Repository"@, "新規リポジトリの登録"@),
        23 => ("add_member"@, "Add New Member"@, "新規メンバーの登録"@),
        24 => ("registered_repos"@, "Registered Repositories"@, "登録済みリポジトリ"@),
        25 => ("registered_members"@, "Registered Members"@, "登録済みメンバー"@),
        26 => ("theme_settings"@, "Appearance & Theme Settings"@, "外観とテーマの設定"@),
        27 => ("editor_settings"@, "Editor Integration Settings"@, "エディタ連携の設定"@),
        28 => ("editor_command"@, "Editor Command:"@, "エディタコマンド:"@),
        29 => ("display_name"@, "Display Name"@, "表示名"@),
        30 => ("display_name_hint"@, "e.g., my-project"@, "例: my-project"@),
        31 => ("path_label"@, "Path"@, "パス"@),
        32 => ("remote_repo_hint"@, "You can enter a local path or a remote (SSH) repository URL"@, "ローカルパスまたはリモート(SSH)リポジトリのURLを入力できます"@),
        33 => ("path_hint"@, "/home/user/repos/my-project or ssh://user@host/path/to/repo"@, "/home/user/repos/my-project または ssh://user@host/path/to/repo"@),
        34 => ("browse_btn"@, "Browse..."@, "選択..."@),
        35 => ("browse_folder_hint"@, "Select multiple folders (display names will default to folder names)"@, "複数フォルダをまとめて選択できます（表示名はフォルダ名になります）"@),
        36 => ("already_registered"@, "(Already registered)"@, "(登録済み)"@),
        37 => ("not_a_git_repo"@, "(Not a Git repository)"@, "(Gitリポジトリではない)"@),
        38 => ("added_success"@, "✓ Added"@, "✓ 追加しました"@),
        39 => ("add_repo_btn"@, "+ Add Repository"@, "+ リポジトリを追加"@),
        40 => ("err_enter_name_and_path"@, "Please enter a display name and path."@, "表示名とパスを入力してください。"@),
        41 => ("err_ssh_unreachable"@, "Cannot reach repository via SSH. Check key authentication, hostname, and remote path."@, "SSH経由でリポジトリに到達できません。鍵認証・ホスト名・リモートのパスを確認してください。"@),
        42 => ("err_invalid_git_repo"@, "Not a valid Git repository directory."@, "有効なGitリポジトリのディレクトリではありません。"@),
        43 => ("no_registered_repos"@, "No repositories registered"@, "リポジトリが登録されていません"@),
        44 => ("save_btn"@, "Save"@, "保存"@),
        45 => ("cancel_btn"@, "Cancel"@, "キャンセル"@),
        46 => ("confirm_delete_repo"@, "Are you sure you want to delete this repository?"@, "本当にこのリポジトリを削除しますか？"@),
        47 => ("yes_delete"@, "Yes, Delete"@, "はい、削除する"@),
        48 => ("delete_action"@, "Delete"@, "削除"@),
        49 => ("edit_action"@, "Edit"@, "編集"@),
        50 => ("alias_label"@, "Aliases"@, "別名"@),
        51 => ("member_name_hint"@, "e.g., Tanaka"@, "例: 田中"@),
        52 => ("member_alias_hint"@, "Tanaka, tanaka@example.com (comma-separated)"@, "Tanaka, tanaka@example.com（カンマ区切り）"@),
        53 => ("active_member_checkbox"@, "Active project member"@, "プロジェクトに在籍中"@),
        54 => ("add_member_btn"@, "+ Add Member"@, "+ メンバーを追加"@),
        55 => ("err_enter_canonical_name"@, "Please enter a display name."@, "代表名を入力してください。"@),
        56 => ("no_registered_members"@, "No members registered"@, "メンバーが登録されていません"@),
        57 => ("confirm_delete_member"@, "Are you sure you want to delete this member?"@, "本当にこのメンバーを削除しますか？"@),
        58 => ("no_aliases"@, "No aliases"@, "別名なし"@),
        59 => ("is_active_checkbox"@, "Active"@, "在籍中"@),
        60 => ("theme_card_desc"@, "Select application color theme. Changes apply immediately and are saved to preferences."@, "アプリのカラーテーマを選択します。クリックすると即座に反映され、設定が保存されます。"@),
        61 => ("os_sync_label"@, "[Follow OS]"@, "[OS追従]"@),
        62 => ("dark_label"@, "[Dark]"@, "[ダーク]"@),
        63 => ("light_label"@, "[Light]"@, "[ライト]"@),
        64 => ("swatch_bg"@, "Background"@, "背景"@),
        65 => ("swatch_sidebar"@, "Sidebar"@, "サイドバー"@),
        66 => ("swatch_card"@, "Card"@, "カード"@),
        67 => ("swatch_text"@, "Text"@, "文字"@),
        68 => ("swatch_accent"@, "Accent"@, "アクセント"@),
        69 => ("swatch_success"@, "Success"@, "成功"@),
        70 => ("swatch_error"@, "Error"@, "エラー"@),
        71 => ("editor_settings_desc"@, "Configure editor command for opening repositories and files."@, "リポジトリやファイルを開くためのエディタコマンドを設定します。"@),
        72 => ("editor_hint"@, "e.g., code, zed, cursor, nvim, vim"@, "例: code, zed, cursor, nvim, vim"@),
        73 => ("editor_note"@, "※ The command must be available in your system PATH. Extra arguments can be included (e.g., `code -r`)."@, "※ コマンドはシステムの PATH に通っている必要があります。引数を含めることも可能です (例: `code -r`)。"@),
        74 => ("tech_stack"@, "Tech Stack Rules"@, "技術スタック"@),
        75 => ("keyboard_shortcuts"@, "Keyboard Shortcuts"@, "キーボードショートカット"@),
        76 => ("shortcut_esc"@, "Back to previous screen / close search & dropdowns"@, "前の画面へ戻る / 検索・選択を閉じる"@),
        77 => ("shortcut_tabs"@, "Switch dashboard view tabs"@, "ダッシュボードのタブ切替"@),
        78 => ("shortcut_hunks"@, "Jump to next/previous hunk in diff view"@, "差分画面でハンク間ジャンプ（次/前）"@),
        79 => ("shortcut_search"@, "In-page text search in diff view"@, "差分画面内テキスト検索"@),
        80 => ("config_file_location"@, "Config Storage Path"@, "設定ファイルの場所"@),
        81 => ("30日"@, "30 Days"@, "30日"@),
        82 => ("90日"@, "90 Days"@, "90日"@),
        83 => ("180日"@, "180 Days"@, "180日"@),
        84 => ("compare_btn"@, "Compare"@, "比較"@),
        85 => ("compare_hint"@, "Show diff from selected base -> target"@, "選択した base → target の差分を表示"@),
        86 => ("select_base_target_hint"@, "Select base / target with ●"@, "●で base / target を選択"@),
        87 => ("clear_selection_hint"@, "Clear selection"@, "選択をクリア"@),
        88 => ("back_to_home"@, "Back to Home"@, "ホームへ戻る"@),
        89 => ("home"@, "Home"@, "ホーム"@),
        90 => ("refresh_status"@, "Refresh status"@, "最新状態に更新"@),
        91 => ("syncing"@, "Syncing"@, "更新中"@),
        92 => ("run_pull"@, "Run Pull"@, "Pullを実行"@),
        93 => ("sync_ok"@, "✓ Synced"@, "✓ 同期済"@),
        94 => ("sync_fail"@, "✗ Failed"@, "✗ 失敗"@),
        95 => ("sync_error_prefix"@, "Sync Error:"@, "同期エラー:"@),
        96 => ("tab_overview"@, "Overview"@, "概要"@),
        97 => ("tab_branches"@, "Branches"@, "ブランチ"@),
        98 => ("tab_contributors"@, "Contributors"@, "貢献者"@),
        99 => ("tab_files"@, "Files"@, "ファイル"@),
        100 => ("tab_activity"@, "Activity"@, "アクティビティ"@),
        101 => ("stat_commits"@, "Commits"@, "コミット"@),
        102 => ("stat_authors"@, "Contributors"@, "開発者"@),
        103 => ("stat_branches"@, "Branches"@, "ブランチ"@),
        104 => ("stat_files"@, "Files"@, "ファイル"@),
        105 => ("stashes"@, "📂 Stashes"@, "📂 スタッシュ"@),
        106 => ("apply_stash"@, "Apply"@, "適用"@),
        107 => ("drop_stash"@, "Drop"@, "削除"@),
        108 => ("view_diff"@, "Diff"@, "差分"@),
        109 => ("active_filter_tooltip"@, "Only shows members marked as Active in Settings"@, "設定で「在籍中」に設定した登録メンバーのみ表示します"@),
        110 => ("slice_other"@, "Other"@, "その他"@),
        111 => ("close_details_hint"@, "Close details"@, "詳細を閉じる"@),
        112 => ("view_commit_diff"@, "View Diff"@, "差分を見る"@),
        113 => ("view_commit_diff_hint"@, "View this commit's changes in diff view"@, "このコミットの変更を差分ビューで表示"@),
        114 => ("fetching_commit_details"@, "Fetching commit details..."@, "コミット詳細を取得中..."@),
        115 => ("no_changes"@, "No changes"@, "変更なし"@),
        116 => ("branches_header"@, "Branches"@, "ブランチ"@),
        117 => ("filter_branches_hint"@, "Filter branches..."@, "ブランチを絞り込み..."@),
        118 => ("tags_header"@, "Tags"@, "タグ"@),
        119 => ("no_tags"@, "No tags"@, "タグなし"@),
        120 => ("tag_select_hint"@, "● Left: select base  ● Right: select target"@, "●左: base選択  ●右: target選択"@),
        121 => ("commit_graph"@, "Commit Graph"@, "コミットグラフ"@),
        122 => ("commit_click_hint"@, "Click: view single commit diff  ● Left: select base  ● Right: select target for range diff"@, "クリック: 1コミットの変更を表示  ●左: base選択  ●右: target選択で範囲差分"@),
        123 => ("loading_commits"@, "Loading..."@, "読み込み中..."@),
        124 => ("load_more_commits"@, "Load more"@, "さらに読み込む"@),
        125 => ("fetching_commit_graph"@, "Fetching commit graph..."@, "コミットグラフを取得中..."@),
        126 => ("files_unit"@, "items"@, "件"@),
        127 => ("commit_details"@, "Commit Details"@, "コミット詳細"@),
        128 => ("contributor_ranking"@, "Contributor Ranking"@, "貢献者ランキング"@),
        129 => ("active_members_only"@, "Active members only"@, "在籍メンバーのみ"@),
        130 => ("readme_not_found"@, "README not found"@, "README が見つかりません"@),
        131 => ("period"@, "Period:"@, "期間:"@),
        132 => ("branch_tag_list"@, "Branches & Tags"@, "ブランチ・タグ一覧"@),
        133 => ("file_structure"@, "File Structure"@, "ファイル構成"@),
        134 => ("top_large_files"@, "Top 10 Largest Files"@, "容量の大きいファイル TOP 10"@),
        135 => ("active"@, "Active"@, "在籍中"@),
        136 => ("inactive"@, "Inactive"@, "非在籍"@),
        137 => ("unregistered"@, "Unregistered"@, "未登録"@),
        138 => ("all_history"@, "All Time"@, "全期間"@),
        139 => ("past_year"@, "Past 1 Year"@, "過去1年間"@),
        140 => ("commits"@, "Commits"@, "コミット数"@),
        141 => ("share"@, "Share"@, "貢献割合"@),
        142 => ("rank"@, "Rank"@, "順位"@),
        143 => ("canonical_name"@, "Name"@, "代表名"@),
        144 => ("file_path"@, "File Path"@, "ファイルパス"@),
        145 => ("file_size"@, "File Size"@, "ファイルサイズ"@),
        146 => ("file_count"@, "Files"@, "ファイル数"@),
        147 => ("extension"@, "Extension"@, "拡張子"@),
        148 => ("search_placeholder"@, "Search diff (F3 / Enter)..."@, "差分を検索 (F3 / Enter)..."@),
        149 => ("search_commit_hint"@, "Search hash / author / message / tag..."@, "ハッシュ / 作者 / メッセージ / タグ名で検索"@),
        150 => ("search_diff_hint"@, "Search in diff..."@, "差分内を検索..."@),
        151 => ("search_command_hint"@, "Search commands..."@, "コマンドを検索..."@),
        152 => ("command_palette"@, "Command Palette"@, "コマンドパレット"@),
        153 => ("toggle_theme"@, "Toggle Theme"@, "テーマ切り替え"@),
        154 => ("app_description"@, "A dashboard for visualizing Git repository commits, branches, and contributors"@, "Git リポジトリのコミット・ブランチ・貢献者を可視化するダッシュボード"@),
        155 => ("no_data"@, "No data available"@, "データがありません"@),
        156 => ("unknown_error"@, "Unknown error"@, "不明なエラー"@),
        157 => ("palette_open_settings"@, "Open Settings"@, "設定を開く"@),
        158 => ("palette_expand_sidebar"@, "Expand Sidebar"@, "サイドバーを展開"@),
        159 => ("palette_collapse_sidebar"@, "Collapse Sidebar"@, "サイドバーを折りたたむ"@),
        160 => ("palette_pull_selected"@, "Pull selected repository"@, "選択中のリポジトリをPull"@),
        161 => ("palette_theme_system"@, "Theme: System (Follow OS)"@, "テーマ: System (OSに追従)"@),
        162 => ("toast_stash_applied"@, "Stash applied."@, "スタッシュを適用しました。"@),
        163 => ("toast_stash_dropped"@, "Stash dropped."@, "スタッシュを削除しました。"@),
        164 => ("editor_err_ssh"@, "Remote (SSH) repositories cannot be opened in a local editor."@, "リモート(SSH)リポジトリはローカルのエディタでは開けません。"@),
        165 => ("editor_err_not_set"@, "Editor command is not configured. Please set it in Settings."@, "エディタコマンドが設定されていません。設定画面で設定してください。"@),
        166 => ("editor_err_empty"@, "Editor command is empty."@, "エディタコマンドが空です。"@),
        167 => ("filter_placeholder"@, "Filter..."@, "フィルター..."@),
        168 => ("follow_os_theme_tooltip"@, "Automatically follow OS light/dark theme"@, "OSのライト/ダーク設定に自動追従"@),
        169 => ("analyzing_repo_data"@, "Analyzing repository data..."@, "リポジトリデータを分析中..."@),
        170 => ("analysis_error"@, "Analysis Error"@, "分析エラー"@),
        171 => ("retry_btn"@, "Retry"@, "再試行"@),
        172 => ("drop_stash_window_title"@, "Drop Stash"@, "スタッシュの削除"@),
        173 => ("no_matching_commands"@, "No matching commands"@, "一致するコマンドがありません"@),
        174 => ("action_col"@, "Actions"@, "操作"@),
        175 => ("btn_add_member"@, "Register as new member"@, "新規メンバーとして登録"@),
        176 => ("btn_add_alias"@, "Add as alias to existing member"@, "既存メンバーの別名として追加"@),
        177 => ("modal_add_member_title"@, "Register New Member"@, "新規メンバー登録"@),
        178 => ("modal_add_alias_title"@, "Add Alias to Existing Member"@, "既存メンバーへの別名追加"@),
        179 => ("select_target_member"@, "Select Target Member"@, "登録先メンバーの選択"@),
        180 => ("contributor_info"@, "Contributor Info"@, "対象貢献者"@),
        181 => ("alias_added_toast"@, "Added alias to member."@, "メンバーに別名を追加しました。"@),
        182 => ("member_registered_toast"@, "Registered new member."@, "新規メンバーを登録しました。"@),
        183 => ("uncommitted_changes_working"@, "Uncommitted Changes (Working Tree)"@, "未コミットの変更 (作業中)"@),
        184 => ("fetching_commits"@, "Fetching commit list..."@, "コミット一覧を取得中..."@),
        185 => ("earlier_commit_tags"@, "Tags on earlier commits"@, "これより前のコミットのタグ"@),
        186 => ("back_to_dashboard"@, "Back to Dashboard"@, "ダッシュボードへ戻る"@),
        187 => ("exit_fullscreen"@, "Exit Fullscreen"@, "全画面表示を解除"@),
        188 => ("enter_fullscreen"@, "Enter Fullscreen"@, "差分を全画面で表示"@),
        189 => ("range_compare"@, "Range Compare"@, "範囲比較"@),
        190 => ("single_commit_changes"@, "Single Commit Changes"@, "1コミットの変更"@),
        191 => ("select_placeholder"@, "Please select..."@, "選択してください"@),
        192 => ("swap_base_target"@, "Swap base and target"@, "base と target を入れ替え"@),
        193 => ("working_tree_hover"@, "Uncommitted changes (working copy)"@, "未コミットの変更 (作業コピー)"@),
        194 => ("working_tree"@, "Working Tree"@, "作業ツリー"@),
        195 => ("re_run_compare"@, "Re-run comparison"@, "比較を再実行"@),
        196 => ("merge_base_checkbox"@, "From common ancestor"@, "共通祖先から"@),
        197 => ("merge_base_tooltip"@, "base...target (GitHub compare style):\nShows changes in target since its common ancestor with base"@, "base...target（GitHub compare方式）:\nbaseとの共通祖先以降の target 側の変更のみを表示します"@),
        198 => ("history_menu"@, "History"@, "履歴"@),
        199 => ("reversed_diff_warning"@, "⚠ base is newer than target (reversed comparison)"@, "⚠ base が target より新しいため逆方向の差分です"@),
        200 => ("swap_link"@, "Swap"@, "入れ替える"@),
        201 => ("select_commits_to_compare"@, "Please select commits to compare"@, "比較するコミットを選択してください"@),
        202 => ("show_file_list"@, "Show file list"@, "ファイル一覧を表示"@),
        203 => ("changed_files_header"@, "Changed Files"@, "変更ファイル"@),
        204 => ("hide_file_list_tooltip"@, "Hide file list for wider diff view"@, "ファイル一覧を隠して差分を広く表示"@),
        205 => ("select_file_hint"@, "Select a file on the left to view diff"@, "左のファイルを選択すると差分を表示します"@),
        206 => ("fetching_diff"@, "Fetching diff..."@, "差分を取得中..."@),
        207 => ("copy_path"@, "Copy Path"@, "パスをコピー"@),
        208 => ("binary_file_no_diff"@, "Binary file, cannot display diff"@, "バイナリファイルのため差分を表示できません"@),
        209 => ("copy_btn"@, "Copy"@, "コピー"@),
        210 => ("copy_path_tooltip"@, "Copy file path"@, "ファイルパスをコピー"@),
        211 => ("prev_next_file_hint"@, "Use [ / ] keys to move to prev/next file"@, "[ / ] キーで前後のファイルへ移動"@),
        212 => ("full_file_checkbox"@, "Full file"@, "全体表示"@),
        213 => ("ignore_ws_checkbox"@, "Ignore whitespace"@, "空白無視"@),
        214 => ("no_diff"@, "No diff available"@, "差分はありません"@),
        215 => ("old_label_prefix"@, "Old: "@, "旧  "@),
        216 => ("new_label_prefix"@, "New: "@, "新  "@),
        217 => ("copy_old_line"@, "Copy old line"@, "旧側の行をコピー"@),
        218 => ("copy_new_line"@, "Copy new line"@, "新側の行をコピー"@),
        219 => ("line_detail_header"@, "Line Details (Top: Old / Bottom: New)"@, "行詳細 (上: 旧 / 下: 新)"@),
        220 => ("zero_matches"@, "0 matches"@, "0 件"@),
        221 => ("no_matches_found"@, "Not found"@, "見つかりません"@),
        222 => ("prev_match_tooltip"@, "Previous match (Shift+Enter)"@, "前のマッチ (Shift+Enter)"@),
        223 => ("next_match_tooltip"@, "Next match (Enter)"@, "次のマッチ (Enter)"@),
        224 => ("close_search_tooltip"@, "Close (Esc)"@, "閉じる (Esc)"@),
        225 => ("repositories"@, "Repositories"@, "リポジトリ"@),
        226 => ("search_label"@, "Search:"@, "検索:"@),
        227 => ("search_repo_hint"@, "Search by repository name or path..."@, "リポジトリ名やパスで検索..."@),
        228 => ("sort_label"@, "Sort:"@, "並び替え:"@),
        229 => ("sort_name_asc"@, "Name (A-Z)"@, "名前 (昇順)"@),
        230 => ("sort_name_desc"@, "Name (Z-A)"@, "名前 (降順)"@),
        231 => ("sort_updated_desc"@, "Last Updated (Newest)"@, "最終更新 (新しい順)"@),
        232 => ("sort_updated_asc"@, "Last Updated (Oldest)"@, "最終更新 (古い順)"@),
        233 => ("select_option"@, "Select..."@, "選択してください"@),
        234 => ("reanalyze_all_hint"@, "Re-analyze all repositories"@, "全再分析（全リポジトリを再読み込み）"@),
        235 => ("fetch_check_hint"@, "Check remote updates (fetch all repositories)"@, "更新確認（リモートから最新の状態を取得し、要プル件数を確認）"@),
        236 => ("pull_all_hint"@, "Pull all repositories"@, "全プル（全リポジトリを一括プル）"@),
        237 => ("no_repos_title"@, "No repositories registered"@, "登録されているリポジトリがありません"@),
        238 => ("no_repos_sub"@, "Add a repository from the Settings button at top right."@, "右上の「設定」ボタンからリポジトリを追加してください。"@),
        239 => ("no_matching_repos_title"@, "No matching repositories found"@, "条件に一致するリポジトリがありません"@),
        240 => ("no_matching_repos_sub"@, "Try changing your search terms or filters."@, "検索キーワードを変えるか、フィルター条件を見直してください。"@),
        241 => ("click_to_view_details"@, "Click to view details"@, "クリックして詳細を表示"@),
        242 => ("no_commits"@, "No commits"@, "コミットなし"@),
        243 => ("unknown"@, "Unknown"@, "不明"@),
        244 => ("analyzing"@, "Analyzing..."@, "分析中..."@),
        245 => ("local_only"@, "Local only"@, "ローカルのみ"@),
        246 => ("no_upstream"@, "No upstream"@, "上流なし"@),
        247 => ("up_to_date"@, "Up to date"@, "最新"@),
        248 => ("show_uncommitted_diff_hint"@, "Show uncommitted changes diff"@, "未コミット変更の差分を表示"@),
        249 => ("loading_analysis_data"@, "Loading analysis data..."@, "分析データをロード中..."@),
        250 => ("loading"@, "Loading..."@, "ロード中..."@),
        251 => ("no_metadata"@, "No metadata"@, "メタデータなし"@),
        252 => ("reanalyze"@, "Re-analyze"@, "再分析"@),
        253 => ("open_in_editor_hint"@, "Open in configured editor"@, "設定されたエディタで開く"@),
        254 => ("clear_status_hint"@, "Clear status"@, "ステータスをクリア"@),
        255 => ("git_no_remote_pull"@, "No remote (e.g. origin) configured. Pull is unavailable for local-only repositories."@, "リモート（origin等）が登録されていません。ローカル専用リポジトリのためプルは行えません。"@),
        256 => ("git_no_upstream"@, "No upstream tracking branch is set for the current branch."@, "現在のブランチに上流（upstream）の追跡リモートブランチが設定されていません。"@),
        257 => ("git_already_up_to_date"@, "Already up to date."@, "すでに最新の状態です。"@),
        258 => ("git_no_remote_fetch"@, "No remote (e.g. origin) configured."@, "リモート（origin等）が登録されていません。"@),
        259 => ("git_fetch_success"@, "Sync status updated."@, "同期状態を最新化しました。"@),
        260 => ("app_title"@, "Git Repository Analysis Dashboard"@, "Gitリポジトリ分析ダッシュボード"@),
        _ => (Seq::empty(), Seq::empty(), Seq::empty()),
    }
}

/// Entry `i` of the message catalog.
fn catalog_entry(i: usize) -> (r: (&'static str, &'static str, &'static str))
    requires
        i < CATALOG_LEN,
    ensures
        (r.0@, r.1@, r.2@) == catalog(i),
{
    match i {
        0 => ("ok", "OK", "OK"),
        1 => ("cancel", "Cancel", "キャンセル"),
        2 => ("save", "Save", "保存"),
        3 => ("close", "Close", "閉じる"),
        4 => ("settings", "Settings", "設定"),
        5 => ("language", "Language", "言語"),
        6 => ("theme_label", "Theme:", "テーマ:"),
        7 => ("english", "English", "English"),
        8 => ("japanese", "Japanese", "日本語"),
        9 => ("dashboard", "Dashboard", "ダッシュボード"),
        10 => ("diff", "Diff", "差分"),
        11 => ("general", "General", "全般"),
        12 => ("appearance", "Appearance", "外観設定"),
        13 => ("members", "Members", "メンバー登録"),
        14 => ("about", "About", "情報"),
        15 => ("open_config_folder", "Open Config Folder", "設定フォルダを開く"),
        16 => ("open_config_folder_tooltip", "Directly edit config.json / members.json / themes.json / tech_rules.json\n(Changes take effect upon app restart)", "config.json / members.json / themes.json / tech_rules.json を直接編集できます\n（編集内容はアプリ再起動で反映されます）"),
        17 => ("tab_repos", "Repositories", "リポジトリ管理"),
        18 => ("tab_members", "Members", "メンバー管理"),
        19 => ("tab_appearance", "Appearance", "外観設定"),
        20 => ("display_language", "Display Language", "表示言語"),
        21 => ("select_display_language", "Select application display language.", "アプリの表示言語を選択します。"),
        22 => ("add_repo", "Add New Repository", "新規リポジトリの登録"),
        23 => ("add_member", "Add New Member", "新規メンバーの登録"),
        24 => ("registered_repos", "Registered Repositories", "登録済みリポジトリ"),
        25 => ("registered_members", "Registered Members", "登録済みメンバー"),
        26 => ("theme_settings", "Appearance & Theme Settings", "外観とテーマの設定"),
        27 => ("editor_settings", "Editor Integration Settings", "エディタ連携の設定"),
        28 => ("editor_command", "Editor Command:", "エディタコマンド:"),
        29 => ("display_name", "Display Name", "表示名"),
        30 => ("display_name_hint", "e.g., my-project", "例: my-project"),
        31 => ("path_label", "Path", "パス"),
        32 => ("remote_repo_hint", "You can enter a local path or a remote (SSH) repository URL", "ローカルパスまたはリモート(SSH)リポジトリのURLを入力できます"),
        33 => ("path_hint", "/home/user/repos/my-project or ssh://user@host/path/to/repo", "/home/user/repos/my-project または ssh://user@host/path/to/repo"),
        34 => ("browse_btn", "Browse...", "選択..."),
        35 => ("browse_folder_hint", "Select multiple folders (display names will default to folder names)", "複数フォルダをまとめて選択できます（表示名はフォルダ名になります）"),
        36 => ("already_registered", "(Already registered)", "(登録済み)"),
        37 => ("not_a_git_repo", "(Not a Git repository)", "(Gitリポジトリではない)"),
        38 => ("added_success", "✓ Added", "✓ 追加しました"),
        39 => ("add_repo_btn", "+ Add Repository", "+ リポジトリを追加"),
        40 => ("err_enter_name_and_path", "Please enter a display name and path.", "表示名とパスを入力してください。"),
        41 => ("err_ssh_unreachable", "Cannot reach repository via SSH. Check key authentication, hostname, and remote path.", "SSH経由でリポジトリに到達できません。鍵認証・ホスト名・リモートのパスを確認してください。"),
        42 => ("err_invalid_git_repo", "Not a valid Git repository directory.", "有効なGitリポジトリのディレクトリではありません。"),
        43 => ("no_registered_repos", "No repositories registered", "リポジトリが登録されていません"),
        44 => ("save_btn", "Save", "保存"),
        45 => ("cancel_btn", "Cancel", "キャンセル"),
        46 => ("confirm_delete_repo", "Are you sure you want to delete this repository?", "本当にこのリポジトリを削除しますか？"),
        47 => ("yes_delete", "Yes, Delete", "はい、削除する"),
        48 => ("delete_action", "Delete", "削除"),
        49 => ("edit_action", "Edit", "編集"),
        50 => ("alias_label", "Aliases", "別名"),
        51 => ("member_name_hint", "e.g., Tanaka", "例: 田中"),
        52 => ("member_alias_hint", "Tanaka, tanaka@example.com (comma-separated)", "Tanaka, tanaka@example.com（カンマ区切り）"),
        53 => ("active_member_checkbox", "Active project member", "プロジェクトに在籍中"),
        54 => ("add_member_btn", "+ Add Member", "+ メンバーを追加"),
        55 => ("err_enter_canonical_name", "Please enter a display name.", "代表名を入力してください。"),
        56 => ("no_registered_members", "No members registered", "メンバーが登録されていません"),
        57 => ("confirm_delete_member", "Are you sure you want to delete this member?", "本当にこのメンバーを削除しますか？"),
        58 => ("no_aliases", "No aliases", "別名なし"),
        59 => ("is_active_checkbox", "Active", "在籍中"),
        60 => ("theme_card_desc", "Select application color theme. Changes apply immediately and are saved to preferences.", "アプリのカラーテーマを選択します。クリックすると即座に反映され、設定が保存されます。"),
        61 => ("os_sync_label", "[Follow OS]", "[OS追従]"),
        62 => ("dark_label", "[Dark]", "[ダーク]"),
        63 => ("light_label", "[Light]", "[ライト]"),
        64 => ("swatch_bg", "Background", "背景"),
        65 => ("swatch_sidebar", "Sidebar", "サイドバー"),
        66 => ("swatch_card", "Card", "カード"),
        67 => ("swatch_text", "Text", "文字"),
        68 => ("swatch_accent", "Accent", "アクセント"),
        69 => ("swatch_success", "Success", "成功"),
        70 => ("swatch_error", "Error", "エラー"),
        71 => ("editor_settings_desc", "Configure editor command for opening repositories and files.", "リポジトリやファイルを開くためのエディタコマンドを設定します。"),
        72 => ("editor_hint", "e.g., code, zed, cursor, nvim, vim", "例: code, zed, cursor, nvim, vim"),
        73 => ("editor_note", "※ The command must be available in your system PATH. Extra arguments can be included (e.g., `code -r`).", "※ コマンドはシステムの PATH に通っている必要があります。引数を含めることも可能です (例: `code -r`)。"),
        74 => ("tech_stack", "Tech Stack Rules", "技術スタック"),
        75 => ("keyboard_shortcuts", "Keyboard Shortcuts", "キーボードショートカット"),
        76 => ("shortcut_esc", "Back to previous screen / close search & dropdowns", "前の画面へ戻る / 検索・選択を閉じる"),
        77 => ("shortcut_tabs", "Switch dashboard view tabs", "ダッシュボードのタブ切替"),
        78 => ("shortcut_hunks", "Jump to next/previous hunk in diff view", "差分画面でハンク間ジャンプ（次/前）"),
        79 => ("shortcut_search", "In-page text search in diff view", "差分画面内テキスト検索"),
        80 => ("config_file_location", "Config Storage Path", "設定ファイルの場所"),
        81 => ("30日", "30 Days", "30日"),
        82 => ("90日", "90 Days", "90日"),
        83 => ("180日", "180 Days", "180日"),
        84 => ("compare_btn", "Compare", "比較"),
        85 => ("compare_hint", "Show diff from selected base -> target", "選択した base → target の差分を表示"),
        86 => ("select_base_target_hint", "Select base / target with ●", "●で base / target を選択"),
        87 => ("clear_selection_hint", "Clear selection", "選択をクリア"),
        88 => ("back_to_home", "Back to Home", "ホームへ戻る"),
        89 => ("home", "Home", "ホーム"),
        90 => ("refresh_status", "Refresh status", "最新状態に更新"),
        91 => ("syncing", "Syncing", "更新中"),
        92 => ("run_pull", "Run Pull", "Pullを実行"),
        93 => ("sync_ok", "✓ Synced", "✓ 同期済"),
        94 => ("sync_fail", "✗ Failed", "✗ 失敗"),
        95 => ("sync_error_prefix", "Sync Error:", "同期エラー:"),
        96 => ("tab_overview", "Overview", "概要"),
        97 => ("tab_branches", "Branches", "ブランチ"),
        98 => ("tab_contributors", "Contributors", "貢献者"),
        99 => ("tab_files", "Files", "ファイル"),
        100 => ("tab_activity", "Activity", "アクティビティ"),
        101 => ("stat_commits", "Commits", "コミット"),
        102 => ("stat_authors", "Contributors", "開発者"),
        103 => ("stat_branches", "Branches", "ブランチ"),
        104 => ("stat_files", "Files", "ファイル"),
        105 => ("stashes", "📂 Stashes", "📂 スタッシュ"),
        106 => ("apply_stash", "Apply", "適用"),
        107 => ("drop_stash", "Drop", "削除"),
        108 => ("view_diff", "Diff", "差分"),
        109 => ("active_filter_tooltip", "Only shows members marked as Active in Settings", "設定で「在籍中」に設定した登録メンバーのみ表示します"),
        110 => ("slice_other", "Other", "その他"),
        111 => ("close_details_hint", "Close details", "詳細を閉じる"),
        112 => ("view_commit_diff", "View Diff", "差分を見る"),
        113 => ("view_commit_diff_hint", "View this commit's changes in diff view", "このコミットの変更を差分ビューで表示"),
        114 => ("fetching_commit_details", "Fetching commit details...", "コミット詳細を取得中..."),
        115 => ("no_changes", "No changes", "変更なし"),
        116 => ("branches_header", "Branches", "ブランチ"),
        117 => ("filter_branches_hint", "Filter branches...", "ブランチを絞り込み..."),
        118 => ("tags_header", "Tags", "タグ"),
        119 => ("no_tags", "No tags", "タグなし"),
        120 => ("tag_select_hint", "● Left: select base  ● Right: select target", "●左: base選択  ●右: target選択"),
        121 => ("commit_graph", "Commit Graph", "コミットグラフ"),
        122 => ("commit_click_hint", "Click: view single commit diff  ● Left: select base  ● Right: select target for range diff", "クリック: 1コミットの変更を表示  ●左: base選択  ●右: target選択で範囲差分"),
        123 => ("loading_commits", "Loading...", "読み込み中..."),
        124 => ("load_more_commits", "Load more", "さらに読み込む"),
        125 => ("fetching_commit_graph", "Fetching commit graph...", "コミットグラフを取得中..."),
        126 => ("files_unit", "items", "件"),
        127 => ("commit_details", "Commit Details", "コミット詳細"),
        128 => ("contributor_ranking", "Contributor Ranking", "貢献者ランキング"),
        129 => ("active_members_only", "Active members only", "在籍メンバーのみ"),
        130 => ("readme_not_found", "README not found", "README が見つかりません"),
        131 => ("period", "Period:", "期間:"),
        132 => ("branch_tag_list", "Branches & Tags", "ブランチ・タグ一覧"),
        133 => ("file_structure", "File Structure", "ファイル構成"),
        134 => ("top_large_files", "Top 10 Largest Files", "容量の大きいファイル TOP 10"),
        135 => ("active", "Active", "在籍中"),
        136 => ("inactive", "Inactive", "非在籍"),
        137 => ("unregistered", "Unregistered", "未登録"),
        138 => ("all_history", "All Time", "全期間"),
        139 => ("past_year", "Past 1 Year", "過去1年間"),
        140 => ("commits", "Commits", "コミット数"),
        141 => ("share", "Share", "貢献割合"),
        142 => ("rank", "Rank", "順位"),
        143 => ("canonical_name", "Name", "代表名"),
        144 => ("file_path", "File Path", "ファイルパス"),
        145 => ("file_size", "File Size", "ファイルサイズ"),
        146 => ("file_count", "Files", "ファイル数"),
        147 => ("extension", "Extension", "拡張子"),
        148 => ("search_placeholder", "Search diff (F3 / Enter)...", "差分を検索 (F3 / Enter)..."),
        149 => ("search_commit_hint", "Search hash / author / message / tag...", "ハッシュ / 作者 / メッセージ / タグ名で検索"),
        150 => ("search_diff_hint", "Search in diff...", "差分内を検索..."),
        151 => ("search_command_hint", "Search commands...", "コマンドを検索..."),
        152 => ("command_palette", "Command Palette", "コマンドパレット"),
        153 => ("toggle_theme", "Toggle Theme", "テーマ切り替え"),
        154 => ("app_description", "A dashboard for visualizing Git repository commits, branches, and contributors", "Git リポジトリのコミット・ブランチ・貢献者を可視化するダッシュボード"),
        155 => ("no_data", "No data available", "データがありません"),
        156 => ("unknown_error", "Unknown error", "不明なエラー"),
        157 => ("palette_open_settings", "Open Settings", "設定を開く"),
        158 => ("palette_expand_sidebar", "Expand Sidebar", "サイドバーを展開"),
        159 => ("palette_collapse_sidebar", "Collapse Sidebar", "サイドバーを折りたたむ"),
        160 => ("palette_pull_selected", "Pull selected repository", "選択中のリポジトリをPull"),
        161 => ("palette_theme_system", "Theme: System (Follow OS)", "テーマ: System (OSに追従)"),
        162 => ("toast_stash_applied", "Stash applied.", "スタッシュを適用しました。"),
        163 => ("toast_stash_dropped", "Stash dropped.", "スタッシュを削除しました。"),
        164 => ("editor_err_ssh", "Remote (SSH) repositories cannot be opened in a local editor.", "リモート(SSH)リポジトリはローカルのエディタでは開けません。"),
        165 => ("editor_err_not_set", "Editor command is not configured. Please set it in Settings.", "エディタコマンドが設定されていません。設定画面で設定してください。"),
        166 => ("editor_err_empty", "Editor command is empty.", "エディタコマンドが空です。"),
        167 => ("filter_placeholder", "Filter...", "フィルター..."),
        168 => ("follow_os_theme_tooltip", "Automatically follow OS light/dark theme", "OSのライト/ダーク設定に自動追従"),
        169 => ("analyzing_repo_data", "Analyzing repository data...", "リポジトリデータを分析中..."),
        170 => ("analysis_error", "Analysis Error", "分析エラー"),
        171 => ("retry_btn", "Retry", "再試行"),
        172 => ("drop_stash_window_title", "Drop Stash", "スタッシュの削除"),
        173 => ("no_matching_commands", "No matching commands", "一致するコマンドがありません"),
        174 => ("action_col", "Actions", "操作"),
        175 => ("btn_add_member", "Register as new member", "新規メンバーとして登録"),
        176 => ("btn_add_alias", "Add as alias to existing member", "既存メンバーの別名として追加"),
        177 => ("modal_add_member_title", "Register New Member", "新規メンバー登録"),
        178 => ("modal_add_alias_title", "Add Alias to Existing Member", "既存メンバーへの別名追加"),
        179 => ("select_target_member", "Select Target Member", "登録先メンバーの選択"),
        180 => ("contributor_info", "Contributor Info", "対象貢献者"),
        181 => ("alias_added_toast", "Added alias to member.", "メンバーに別名を追加しました。"),
        182 => ("member_registered_toast", "Registered new member.", "新規メンバーを登録しました。"),
        183 => ("uncommitted_changes_working", "Uncommitted Changes (Working Tree)", "未コミットの変更 (作業中)"),
        184 => ("fetching_commits", "Fetching commit list...", "コミット一覧を取得中..."),
        185 => ("earlier_commit_tags", "Tags on earlier commits", "これより前のコミットのタグ"),
        186 => ("back_to_dashboard", "Back to Dashboard", "ダッシュボードへ戻る"),
        187 => ("exit_fullscreen", "Exit Fullscreen", "全画面表示を解除"),
        188 => ("enter_fullscreen", "Enter Fullscreen", "差分を全画面で表示"),
        189 => ("range_compare", "Range Compare", "範囲比較"),
        190 => ("single_commit_changes", "Single Commit Changes", "1コミットの変更"),
        191 => ("select_placeholder", "Please select...", "選択してください"),
        192 => ("swap_base_target", "Swap base and target", "base と target を入れ替え"),
        193 => ("working_tree_hover", "Uncommitted changes (working copy)", "未コミットの変更 (作業コピー)"),
        194 => ("working_tree", "Working Tree", "作業ツリー"),
        195 => ("re_run_compare", "Re-run comparison", "比較を再実行"),
        196 => ("merge_base_checkbox", "From common ancestor", "共通祖先から"),
        197 => ("merge_base_tooltip", "base...target (GitHub compare style):\nShows changes in target since its common ancestor with base", "base...target（GitHub compare方式）:\nbaseとの共通祖先以降の target 側の変更のみを表示します"),
        198 => ("history_menu", "History", "履歴"),
        199 => ("reversed_diff_warning", "⚠ base is newer than target (reversed comparison)", "⚠ base が target より新しいため逆方向の差分です"),
        200 => ("swap_link", "Swap", "入れ替える"),
        201 => ("select_commits_to_compare", "Please select commits to compare", "比較するコミットを選択してください"),
        202 => ("show_file_list", "Show file list", "ファイル一覧を表示"),
        203 => ("changed_files_header", "Changed Files", "変更ファイル"),
        204 => ("hide_file_list_tooltip", "Hide file list for wider diff view", "ファイル一覧を隠して差分を広く表示"),
        205 => ("select_file_hint", "Select a file on the left to view diff", "左のファイルを選択すると差分を表示します"),
        206 => ("fetching_diff", "Fetching diff...", "差分を取得中..."),
        207 => ("copy_path", "Copy Path", "パスをコピー"),
        208 => ("binary_file_no_diff", "Binary file, cannot display diff", "バイナリファイルのため差分を表示できません"),
        209 => ("copy_btn", "Copy", "コピー"),
        210 => ("copy_path_tooltip", "Copy file path", "ファイルパスをコピー"),
        211 => ("prev_next_file_hint", "Use [ / ] keys to move to prev/next file", "[ / ] キーで前後のファイルへ移動"),
        212 => ("full_file_checkbox", "Full file", "全体表示"),
        213 => ("ignore_ws_checkbox", "Ignore whitespace", "空白無視"),
        214 => ("no_diff", "No diff available", "差分はありません"),
        215 => ("old_label_prefix", "Old: ", "旧  "),
        216 => ("new_label_prefix", "New: ", "新  "),
        217 => ("copy_old_line", "Copy old line", "旧側の行をコピー"),
        218 => ("copy_new_line", "Copy new line", "新側の行をコピー"),
        219 => ("line_detail_header", "Line Details (Top: Old / Bottom: New)", "行詳細 (上: 旧 / 下: 新)"),
        220 => ("zero_matches", "0 matches", "0 件"),
        221 => ("no_matches_found", "Not found", "見つかりません"),
        222 => ("prev_match_tooltip", "Previous match (Shift+Enter)", "前のマッチ (Shift+Enter)"),
        223 => ("next_match_tooltip", "Next match (Enter)", "次のマッチ (Enter)"),
        224 => ("close_search_tooltip", "Close (Esc)", "閉じる (Esc)"),
        225 => ("repositories", "Repositories", "リポジトリ"),
        226 => ("search_label", "Search:", "検索:"),
        227 => ("search_repo_hint", "Search by repository name or path...", "リポジトリ名やパスで検索..."),
        228 => ("sort_label", "Sort:", "並び替え:"),
        229 => ("sort_name_asc", "Name (A-Z)", "名前 (昇順)"),
        230 => ("sort_name_desc", "Name (Z-A)", "名前 (降順)"),
        231 => ("sort_updated_desc", "Last Updated (Newest)", "最終更新 (新しい順)"),
        232 => ("sort_updated_asc", "Last Updated (Oldest)", "最終更新 (古い順)"),
        233 => ("select_option", "Select...", "選択してください"),
        234 => ("reanalyze_all_hint", "Re-analyze all repositories", "全再分析（全リポジトリを再読み込み）"),
        235 => ("fetch_check_hint", "Check remote updates (fetch all repositories)", "更新確認（リモートから最新の状態を取得し、要プル件数を確認）"),
        236 => ("pull_all_hint", "Pull all repositories", "全プル（全リポジトリを一括プル）"),
        237 => ("no_repos_title", "No repositories registered", "登録されているリポジトリがありません"),
        238 => ("no_repos_sub", "Add a repository from the Settings button at top right.", "右上の「設定」ボタンからリポジトリを追加してください。"),
        239 => ("no_matching_repos_title", "No matching repositories found", "条件に一致するリポジトリがありません"),
        240 => ("no_matching_repos_sub", "Try changing your search terms or filters.", "検索キーワードを変えるか、フィルター条件を見直してください。"),
        241 => ("click_to_view_details", "Click to view details", "クリックして詳細を表示"),
        242 => ("no_commits", "No commits", "コミットなし"),
        243 => ("unknown", "Unknown", "不明"),
        244 => ("analyzing", "Analyzing...", "分析中..."),
        245 => ("local_only", "Local only", "ローカルのみ"),
        246 => ("no_upstream", "No upstream", "上流なし"),
        247 => ("up_to_date", "Up to date", "最新"),
        248 => ("show_uncommitted_diff_hint", "Show uncommitted changes diff", "未コミット変更の差分を表示"),
        249 => ("loading_analysis_data", "Loading analysis data...", "分析データをロード中..."),
        250 => ("loading", "Loading...", "ロード中..."),
        251 => ("no_metadata", "No metadata", "メタデータなし"),
        252 => ("reanalyze", "Re-analyze", "再分析"),
        253 => ("open_in_editor_hint", "Open in configured editor", "設定されたエディタで開く"),
        254 => ("clear_status_hint", "Clear status", "ステータスをクリア"),
        255 => ("git_no_remote_pull", "No remote (e.g. origin) configured. Pull is unavailable for local-only repositories.", "リモート（origin等）が登録されていません。ローカル専用リポジトリのためプルは行えません。"),
        256 => ("git_no_upstream", "No upstream tracking branch is set for the current branch.", "現在のブランチに上流（upstream）の追跡リモートブランチが設定されていません。"),
        257 => ("git_already_up_to_date", "Already up to date.", "すでに最新の状態です。"),
        258 => ("git_no_remote_fetch", "No remote (e.g. origin) configured.", "リモート（origin等）が登録されていません。"),
        259 => ("git_fetch_success", "Sync status updated.", "同期状態を最新化しました。"),
        260 => ("app_title", "Git Repository Analysis Dashboard", "Gitリポジトリ分析ダッシュボード"),
        _ => ("", "", ""),
    }
}

/// The text of a catalog entry in a language.
pub open spec fn in_language(lang: Language, e: (Seq<char>, Seq<char>, Seq<char>)) -> Seq<char> {
    match lang {
        Language::English => e.1,
        Language::Japanese => e.2,
    }
}

/// The translation of `key` found from catalog entry `i` on, or the key itself.
pub open spec fn lookup_from(lang: Language, key: Seq<char>, i: nat) -> Seq<char>
    decreases CATALOG_LEN - i,
{
    if i >= CATALOG_LEN {
        key
    } else if catalog(i as usize).0 == key {
        in_language(lang, catalog(i as usize))
    } else {
        lookup_from(lang, key, i + 1)
    }
}

/// The localized text for `key`, or the key itself when the catalog has none.
pub open spec fn translate(lang: Language, key: Seq<char>) -> Seq<char> {
    lookup_from(lang, key, 0)
}

/// Translates a key for a language; unknown keys come back unchanged.
pub fn t<'a>(lang: Language, key: &'a str) -> (r: &'a str)
    ensures
        r@ == translate(lang, key@),
{
    let mut i: usize = 0;
    while i < CATALOG_LEN
        invariant
            i <= CATALOG_LEN,
            translate(lang, key@) == lookup_from(lang, key@, i as nat),
        decreases CATALOG_LEN - i,
    {
        let e = catalog_entry(i);
        if str_eq(e.0, key) {
            return match lang {
                Language::English => e.1,
                Language::Japanese => e.2,
            };
        }
        i = i + 1;
    }
    key
}


proof fn lemma_lookup_from(lang: Language, key: Seq<char>, i: nat)
    requires
        i <= CATALOG_LEN,
    ensures
        (forall|j: nat| i <= j < CATALOG_LEN ==> (#[trigger] catalog(j as usize)).0 != key) ==> lookup_from(lang, key, i) == key,
        forall|k: nat| i <= k < CATALOG_LEN && (#[trigger] catalog(k as usize)).0 == key
            && (forall|j: nat| i <= j < k ==> (#[trigger] catalog(j as usize)).0 != key)
            ==> lookup_from(lang, key, i) == in_language(lang, catalog(k as usize)),
    decreases CATALOG_LEN - i,
{
    if i < CATALOG_LEN {
        lemma_lookup_from(lang, key, i + 1);
        assert forall|k: nat| i <= k < CATALOG_LEN && (#[trigger] catalog(k as usize)).0 == key
            && (forall|j: nat| i <= j < k ==> (#[trigger] catalog(j as usize)).0 != key)
            implies lookup_from(lang, key, i) == in_language(lang, catalog(k as usize)) by {
            if k > i {
                assert(catalog(i as usize).0 != key);
            }
        }
    }
}

/// A key that no catalog entry has comes back unchanged in both languages;
/// a key in the catalog gives the text of its first entry in the language.
pub proof fn lemma_translate(lang: Language, key: Seq<char>)
    ensures
        (forall|j: nat| j < CATALOG_LEN ==> (#[trigger] catalog(j as usize)).0 != key) ==> translate(lang, key) == key,
        forall|k: nat| k < CATALOG_LEN && (#[trigger] catalog(k as usize)).0 == key
            && (forall|j: nat| j < k ==> (#[trigger] catalog(j as usize)).0 != key)
            ==> translate(lang, key) == in_language(lang, catalog(k as usize)),
{
    lemma_lookup_from(lang, key, 0);
}

} // verus!
